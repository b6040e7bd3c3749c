//! The arguments of terminal commands.

use crate::number;
use crate::text;
use vstd::prelude::*;
use vstd::slice::slice_subrange;

verus! {

/// The path at the start of `s`: a text in quotation marks, or else a word.
pub open spec fn first_path(s: Seq<char>) -> Option<Seq<char>> {
    let path = if s.len() > 0 && s[0] == '"' {
        s.skip(1).take(text::first_index(s.skip(1), '"'))
    } else {
        s.take(text::first_white(s))
    };
    if path.len() > 0 {
        Some(path)
    } else {
        None
    }
}

/// The path that a command line holds behind its first word.
pub open spec fn path_arg(command_line: Seq<char>) -> Option<Seq<char>> {
    let line = text::trimmed(command_line);
    let i = text::first_white(line);
    if i < line.len() {
        first_path(text::trimmed(line.skip(i + 1)))
    } else {
        None
    }
}

/// The first and the last line number of a range such as `10-20`. Either may be
/// missing.
pub open spec fn line_range(s: Seq<char>) -> (Option<u16>, Option<u16>) {
    let ends = text::pieces(s, '-');
    (
        number::line_number(ends[0]),
        if ends.len() > 1 {
            number::line_number(ends[1])
        } else {
            None
        },
    )
}

/// The range of lines that a command names behind its first word.
pub open spec fn range_arg(command: Seq<char>) -> (Option<u16>, Option<u16>) {
    let words = text::pieces(text::trimmed(command), ' ');
    if words.len() > 1 {
        line_range(words[1])
    } else {
        (None, None)
    }
}

/// The text of an optional string.
pub open spec fn opt_text(s: Option<String>) -> Option<Seq<char>> {
    match s {
        Some(s) => Some(s@),
        None => None,
    }
}

/// The path argument of a command line. A path with white space in it stands in
/// quotation marks. `None` if there is no argument.
pub fn parse_path_arg(command_line: &str) -> (r: Option<String>)
    ensures
        opt_text(r) == path_arg(command_line@),
{
    let chars = text::to_chars(command_line);
    let line = text::trim(chars.as_slice());
    let i = text::find_white(line);
    if i >= line.len() {
        return None;
    }
    let rest = text::trim(slice_subrange(line, i + 1, line.len()));
    let path = if rest.len() > 0 && rest[0] == '"' {
        let quoted = slice_subrange(rest, 1, rest.len());
        let end = text::find_char(quoted, '"');
        slice_subrange(quoted, 0, end)
    } else {
        let end = text::find_white(rest);
        slice_subrange(rest, 0, end)
    };
    if path.len() > 0 {
        Some(text::from_chars(path))
    } else {
        None
    }
}

/// The range of lines that a command names: the number in front of the `-` and
/// the one behind it.
pub fn parse_command(command: &str) -> (r: (Option<u16>, Option<u16>))
    ensures
        r == range_arg(command@),
{
    let chars = text::to_chars(command);
    let words = text::split(text::trim(chars.as_slice()), ' ');
    if words.len() < 2 {
        return (None, None);
    }
    let ends = text::split(words[1], '-');
    let start = number::parse_u16(ends[0]);
    let end = if ends.len() > 1 {
        number::parse_u16(ends[1])
    } else {
        None
    };
    (start, end)
}

/// Whether `s` is white space alone.
pub open spec fn all_white(s: Seq<char>) -> bool {
    forall|i: int| 0 <= i < s.len() ==> text::is_white(#[trigger] s[i])
}

/// Whether `s` is a word: some text without white space.
pub open spec fn is_word(s: Seq<char>) -> bool {
    s.len() > 0 && forall|i: int| 0 <= i < s.len() ==> !text::is_white(#[trigger] s[i])
}

/// The argument of a command line is what follows its first word.
proof fn lemma_argument(word: Seq<char>, gap: Seq<char>, arg: Seq<char>)
    requires
        is_word(word),
        gap.len() > 0,
        all_white(gap),
        arg.len() > 0,
        text::is_trimmed(arg),
    ensures
        path_arg(word + gap + arg) == first_path(arg),
{
    let line = word + gap + arg;
    assert(line[0] == word[0]);
    assert(line.last() == arg.last());
    text::lemma_is_trimmed(line);
    assert(line[word.len() as int] == gap[0]);
    assert forall|j: int| 0 <= j < word.len() implies !text::is_white(line[j]) by {
        assert(line[j] == word[j]);
    }
    text::lemma_first_white_at(line, word.len() as int);
    assert(line.skip(word.len() as int + 1) == gap.skip(1) + arg);
    text::lemma_trimmed_gap(gap.skip(1), arg);
}

/// A path in quotation marks is taken whole, white space included.
pub proof fn law_quoted_path(word: Seq<char>, gap: Seq<char>, path: Seq<char>)
    requires
        is_word(word),
        gap.len() > 0,
        all_white(gap),
        path.len() > 0,
        !path.contains('"'),
    ensures
        path_arg(word + gap + (seq!['"'] + path + seq!['"'])) == Some(path),
{
    let arg = seq!['"'] + path + seq!['"'];
    lemma_argument(word, gap, arg);
    let quoted = arg.skip(1);
    assert(quoted == path.push('"'));
    assert forall|j: int| 0 <= j < path.len() implies quoted[j] != '"' by {
        assert(path.contains(path[j]));
    }
    text::lemma_first_index_at(quoted, '"', path.len() as int);
    assert(quoted.take(path.len() as int) == path);
}

/// A path without white space needs no quotation marks.
pub proof fn law_plain_path(word: Seq<char>, gap: Seq<char>, path: Seq<char>)
    requires
        is_word(word),
        gap.len() > 0,
        all_white(gap),
        is_word(path),
        path[0] != '"',
    ensures
        path_arg(word + gap + path) == Some(path),
{
    lemma_argument(word, gap, path);
    text::lemma_first_white_at(path, path.len() as int);
    assert(path.take(path.len() as int) == path);
}

/// A command word alone has no path argument, whatever white space is around it.
pub proof fn law_no_path(before: Seq<char>, word: Seq<char>, after: Seq<char>)
    requires
        all_white(before),
        is_word(word),
        all_white(after),
    ensures
        path_arg(before + word + after) == None::<Seq<char>>,
    decreases after.len(),
{
    if after.len() > 0 {
        let line = before + word + after;
        law_no_path(before, word, after.drop_last());
        assert(line.drop_last() == before + word + after.drop_last());
        assert(line.last() == after.last());
        text::lemma_trimmed_drop(line);
    } else {
        assert(before + word + after == before + word);
        text::lemma_trimmed_gap(before, word);
        text::lemma_first_white_at(word, word.len() as int);
    }
}

/// A path argument is never empty.
pub proof fn law_path_is_not_empty(command_line: Seq<char>)
    ensures
        path_arg(command_line) matches Some(path) ==> path.len() > 0,
{
}

/// The second word of a command is the range.
proof fn lemma_range(word: Seq<char>, range: Seq<char>)
    requires
        is_word(word),
        is_word(range),
    ensures
        range_arg(word.push(' ') + range) == line_range(range),
{
    let line = word.push(' ') + range;
    assert(line[0] == word[0]);
    assert(line.last() == range.last());
    text::lemma_is_trimmed(line);
    assert(!word.contains(' '));
    assert(!range.contains(' '));
    text::lemma_pieces(word, ' ', range);
    text::lemma_pieces(range, ' ', range);
}

/// Both ends of a range are read.
pub proof fn law_range(word: Seq<char>, start: u16, end: u16)
    requires
        is_word(word),
    ensures
        range_arg(
            word.push(' ') + (number::decimal(start as nat).push('-') + number::decimal(
                end as nat,
            )),
        ) == (Some(start), Some(end)),
{
    let a = number::decimal(start as nat);
    let b = number::decimal(end as nat);
    number::lemma_decimal(start as nat);
    number::lemma_decimal(end as nat);
    number::law_decimal_reads_back(start);
    number::law_decimal_reads_back(end);
    let range = a.push('-') + b;
    lemma_range(word, range);
    assert(!a.contains('-'));
    assert(!b.contains('-'));
    text::lemma_pieces(a, '-', b);
    text::lemma_pieces(b, '-', b);
}

/// A range may lack its last line.
pub proof fn law_range_from(word: Seq<char>, start: u16)
    requires
        is_word(word),
    ensures
        range_arg(word.push(' ') + number::decimal(start as nat).push('-')) == (
            Some(start),
            None::<u16>,
        ),
{
    let a = number::decimal(start as nat);
    let nothing = Seq::<char>::empty();
    number::lemma_decimal(start as nat);
    number::law_decimal_reads_back(start);
    let range = a.push('-');
    lemma_range(word, range);
    assert(!a.contains('-'));
    text::lemma_pieces(a, '-', nothing);
    text::lemma_pieces(nothing, '-', nothing);
    assert(a.push('-') + nothing == range);
}

/// A range may lack its first line.
pub proof fn law_range_to(word: Seq<char>, end: u16)
    requires
        is_word(word),
    ensures
        range_arg(word.push(' ') + (seq!['-'] + number::decimal(end as nat))) == (
            None::<u16>,
            Some(end),
        ),
{
    let b = number::decimal(end as nat);
    let nothing = Seq::<char>::empty();
    number::lemma_decimal(end as nat);
    number::law_decimal_reads_back(end);
    let range = seq!['-'] + b;
    lemma_range(word, range);
    assert(!b.contains('-'));
    text::lemma_pieces(nothing, '-', b);
    text::lemma_pieces(b, '-', b);
    assert(nothing.push('-') + b == range);
}

/// A single number is the first line of a range.
pub proof fn law_range_of_one(word: Seq<char>, start: u16)
    requires
        is_word(word),
    ensures
        range_arg(word.push(' ') + number::decimal(start as nat)) == (Some(start), None::<u16>),
{
    let a = number::decimal(start as nat);
    number::lemma_decimal(start as nat);
    number::law_decimal_reads_back(start);
    lemma_range(word, a);
    assert(!a.contains('-'));
    text::lemma_pieces(a, '-', a);
}

/// A command word alone names no lines.
pub proof fn law_no_range(word: Seq<char>)
    requires
        is_word(word),
    ensures
        range_arg(word) == (None::<u16>, None::<u16>),
{
    text::lemma_is_trimmed(word);
    assert(!word.contains(' '));
    text::lemma_pieces(word, ' ', word);
}

/// What is cut off behind an argument is white space.
proof fn lemma_argument_and_tail(
    word: Seq<char>,
    gap: Seq<char>,
    arg: Seq<char>,
    tail: Seq<char>,
)
    requires
        is_word(word),
        gap.len() > 0,
        all_white(gap),
        arg.len() > 0,
        text::is_trimmed(arg),
    ensures
        path_arg(word + gap + arg + tail) == first_path(arg + text::trimmed_end(tail)),
{
    let line = word + gap + arg;
    let all = line + tail;
    let end = text::trimmed_end(tail);
    assert(all[0] == word[0]);
    assert(line.last() == arg.last());
    text::lemma_trimmed_end_add(line, tail);
    text::lemma_trimmed_end(tail);
    let whole = arg + end;
    assert(whole[0] == arg[0]);
    if end.len() > 0 {
        assert(whole.last() == end.last());
    } else {
        assert(whole =~= arg);
    }
    assert(line + end =~= word + gap + whole);
    lemma_argument(word, gap, whole);
    assert(text::trimmed(all) == line + end);
    text::lemma_trimmed(all);
    text::lemma_is_trimmed(text::trimmed(all));
}

/// A path in quotation marks ends at the second mark, whatever follows. Nothing
/// between the marks is no path.
pub proof fn law_quoted_path_ends_at_the_mark(
    word: Seq<char>,
    gap: Seq<char>,
    path: Seq<char>,
    tail: Seq<char>,
)
    requires
        is_word(word),
        gap.len() > 0,
        all_white(gap),
        !path.contains('"'),
    ensures
        path_arg(word + gap + (seq!['"'] + path + seq!['"']) + tail) == (if path.len() > 0 {
            Some(path)
        } else {
            None
        }),
{
    let arg = seq!['"'] + path + seq!['"'];
    let end = text::trimmed_end(tail);
    lemma_argument_and_tail(word, gap, arg, tail);
    let quoted = (arg + end).skip(1);
    assert(quoted =~= path.push('"') + end);
    assert forall|j: int| 0 <= j < path.len() implies quoted[j] != '"' by {
        assert(path.contains(path[j]));
        assert(quoted[j] == path[j]);
    }
    text::lemma_first_index_at(quoted, '"', path.len() as int);
    assert(quoted.take(path.len() as int) =~= path);
    assert((arg + end)[0] == '"');
}

/// A path without quotation marks ends at the next white space, whatever follows.
pub proof fn law_plain_path_ends_at_white_space(
    word: Seq<char>,
    gap: Seq<char>,
    path: Seq<char>,
    tail: Seq<char>,
)
    requires
        is_word(word),
        gap.len() > 0,
        all_white(gap),
        is_word(path),
        path[0] != '"',
        tail.len() > 0 ==> text::is_white(tail[0]),
    ensures
        path_arg(word + gap + path + tail) == Some(path),
{
    let end = text::trimmed_end(tail);
    lemma_argument_and_tail(word, gap, path, tail);
    text::lemma_trimmed_end(tail);
    let whole = path + end;
    assert(whole[0] == path[0]);
    assert forall|j: int| 0 <= j < path.len() implies !text::is_white(whole[j]) by {
        assert(whole[j] == path[j]);
    }
    if end.len() > 0 {
        assert(whole[path.len() as int] == end[0]);
    }
    text::lemma_first_white_at(whole, path.len() as int);
    assert(whole.take(path.len() as int) =~= path);
}

/// A quotation mark that is not closed holds for the rest of the line.
pub proof fn law_open_quotation(word: Seq<char>, gap: Seq<char>, path: Seq<char>)
    requires
        is_word(word),
        gap.len() > 0,
        all_white(gap),
        path.len() > 0,
        !path.contains('"'),
        !text::is_white(path.last()),
    ensures
        path_arg(word + gap + (seq!['"'] + path)) == Some(path),
{
    let arg = seq!['"'] + path;
    assert(arg.last() == path.last());
    lemma_argument(word, gap, arg);
    assert(arg.skip(1) =~= path);
    assert forall|j: int| 0 <= j < path.len() implies path[j] != '"' by {
        assert(path.contains(path[j]));
    }
    text::lemma_first_index_at(path, '"', path.len() as int);
    assert(path.take(path.len() as int) =~= path);
}

/// White space around a command line makes no difference to its arguments.
pub proof fn law_white_space_around_a_command(
    before: Seq<char>,
    core: Seq<char>,
    after: Seq<char>,
)
    requires
        all_white(before),
        all_white(after),
        core.len() > 0 ==> !text::is_white(core[0]) && !text::is_white(core.last()),
    ensures
        path_arg(before + core + after) == path_arg(core),
        range_arg(before + core + after) == range_arg(core),
{
    text::law_trim(before, core, after);
    text::lemma_is_trimmed(core);
}

/// The range is the second word of a command: what stands between its first
/// space and the next.
pub proof fn law_range_is_the_second_word(word: Seq<char>, range: Seq<char>, rest: Seq<char>)
    requires
        is_word(word),
        !range.contains(' '),
        rest.len() > 0,
        !text::is_white(rest.last()),
    ensures
        range_arg(word + seq![' '] + range + seq![' '] + rest) == line_range(range),
{
    let line = word + seq![' '] + range + seq![' '] + rest;
    assert(line[0] == word[0]);
    assert(line.last() == rest.last());
    text::lemma_is_trimmed(line);
    assert(!word.contains(' '));
    let behind = range.push(' ') + rest;
    assert(line =~= word.push(' ') + behind);
    text::lemma_pieces(word, ' ', behind);
    text::lemma_pieces(range, ' ', rest);
}

/// The ends of a range are the texts in front of its first `-` and behind it, up
/// to the next `-` if there is one. Each counts if it is a line number.
pub proof fn law_ends_of_a_range(first: Seq<char>, last: Seq<char>, more: Seq<char>)
    requires
        !first.contains('-'),
        !last.contains('-'),
    ensures
        line_range(first) == (number::line_number(first), None::<u16>),
        line_range(first + seq!['-'] + last) == (
            number::line_number(first),
            number::line_number(last),
        ),
        line_range(first + seq!['-'] + last + seq!['-'] + more) == (
            number::line_number(first),
            number::line_number(last),
        ),
{
    text::lemma_pieces(first, '-', last);
    text::lemma_pieces(last, '-', more);
    assert(first + seq!['-'] + last =~= first.push('-') + last);
    let behind = last.push('-') + more;
    text::lemma_pieces(first, '-', behind);
    assert(first + seq!['-'] + last + seq!['-'] + more =~= first.push('-') + behind);
}

} // verus!
