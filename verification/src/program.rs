//! BASIC programs: numbered lines, how they are entered, listed and saved.

use crate::number;
use crate::text;
use vstd::prelude::*;

verus! {

/// A program: the instruction of each line, by its number.
pub type Program = Map<u16, Seq<char>>;

/// One more than the highest line number.
pub open spec fn number_limit() -> int {
    u16::MAX + 1
}

/// The program `p` after `line` was entered. A line number and an instruction,
/// with a space between them, set a line; a line number alone takes the line
/// away; anything else leaves the program as it is.
pub open spec fn entered(p: Program, line: Seq<char>) -> Program {
    let i = text::first_index(line, ' ');
    match number_in(line) {
        Some(n) => if i < line.len() {
            p.insert(n, text::trimmed(line.skip(i + 1)))
        } else {
            p.remove(n)
        },
        None => p,
    }
}

/// The program `p` after `lines` were entered, one by one.
pub open spec fn entered_all(p: Program, lines: Seq<Seq<char>>) -> Program
    decreases lines.len(),
{
    if lines.len() == 0 {
        p
    } else {
        entered(entered_all(p, lines.drop_last()), lines.last())
    }
}

/// The lines without white space around them.
pub open spec fn all_trimmed(lines: Seq<Seq<char>>) -> Seq<Seq<char>> {
    lines.map_values(|line: Seq<char>| text::trimmed(line))
}

/// The lines of the file `contents`, as they are entered when it is loaded.
pub open spec fn loaded_lines(contents: Seq<char>) -> Seq<Seq<char>> {
    all_trimmed(text::line_seq(contents))
}

/// The program `p` after the file `contents` was loaded into it.
pub open spec fn loaded(p: Program, contents: Seq<char>) -> Program {
    entered_all(p, loaded_lines(contents))
}

/// The line numbers of `p` from `low` up to but not including `high`, in
/// ascending order.
pub open spec fn numbers(p: Program, low: int, high: int) -> Seq<u16>
    decreases high - low,
{
    if high <= low {
        seq![]
    } else if p.contains_key((high - 1) as u16) {
        numbers(p, low, high - 1).push((high - 1) as u16)
    } else {
        numbers(p, low, high - 1)
    }
}

/// All line numbers of `p`, in ascending order.
pub open spec fn all_numbers(p: Program) -> Seq<u16> {
    numbers(p, 0, number_limit())
}

/// The line `n` of `p` as it can be entered again.
pub open spec fn line_text(p: Program, n: u16) -> Seq<char> {
    number::decimal(n as nat).push(' ') + p[n]
}

/// The lines `ns` of `p`, each ended by a line feed.
pub open spec fn lines_text(p: Program, ns: Seq<u16>) -> Seq<char>
    decreases ns.len(),
{
    if ns.len() == 0 {
        seq![]
    } else {
        line_text(p, ns[0]).push('\n') + lines_text(p, ns.skip(1))
    }
}

/// The program `p` as it is saved: its lines in ascending order.
pub open spec fn saved_text(p: Program) -> Seq<char> {
    lines_text(p, all_numbers(p))
}

/// The number of digits of the highest line number of `p`.
pub open spec fn number_width(p: Program) -> int {
    number::decimal(all_numbers(p).last() as nat).len() as int
}

/// The spaces that bring the number `n` to the width of the numbers of `p`.
pub open spec fn padding(p: Program, n: u16) -> Seq<char> {
    Seq::new(
        (number_width(p) - number::decimal(n as nat).len()) as nat,
        |i: int| ' ',
    )
}

/// The line `n` of `p` as it is shown on the screen: the number aligned to the
/// right, in cyan.
pub open spec fn line_shown(p: Program, n: u16) -> Seq<char> {
    padding(p, n) + "\x1b[36m"@ + number::decimal(n as nat) + "\x1b[0m "@ + p[n]
}

/// Whether no instruction of `p` starts or ends with white space.
pub open spec fn instructions_trimmed(p: Program) -> bool {
    forall|n: u16| p.contains_key(n) ==> text::is_trimmed(#[trigger] p[n])
}

/// Whether every instruction of `p` is one line of text.
pub open spec fn instructions_single_line(p: Program) -> bool {
    forall|n: u16| p.contains_key(n) ==> !(#[trigger] p[n]).contains('\n')
}

/// The lines of `p` that hold an instruction.
pub open spec fn without_blanks(p: Program) -> Program {
    Map::new(|n: u16| p.contains_key(n) && p[n].len() > 0, |n: u16| p[n])
}

/// The line `n` of `p` without white space behind it: a blank line leaves its
/// number alone.
pub open spec fn bare_line(p: Program, n: u16) -> Seq<char> {
    text::trimmed(line_text(p, n))
}

/// The number at the start of `line`, if there is one.
pub open spec fn number_in(line: Seq<char>) -> Option<u16> {
    number::line_number(line.take(text::first_index(line, ' ')))
}

/// Whether `s` rises from each item to the next.
pub open spec fn ascending(s: Seq<u16>) -> bool {
    forall|i: int, j: int| 0 <= i < j < s.len() ==> s[i] < s[j]
}

/// The numbers of a listing ascend, and are just those of the lines within its
/// bounds.
pub proof fn law_numbers_ascend(p: Program, low: int, high: int)
    requires
        0 <= low,
        high <= number_limit(),
    ensures
        ascending(numbers(p, low, high)),
        forall|n: u16| #[trigger]
            numbers(p, low, high).contains(n) <==> p.contains_key(n) && low <= n < high,
    decreases high - low,
{
    let s = numbers(p, low, high);
    if low < high {
        law_numbers_ascend(p, low, high - 1);
        let t = numbers(p, low, high - 1);
        let m = (high - 1) as u16;
        assert(forall|i: int| 0 <= i < t.len() ==> t.contains(#[trigger] t[i]));
        assert forall|n: u16| #[trigger] s.contains(n) <==> p.contains_key(n) && low <= n < high by {
            if p.contains_key(m) {
                assert(s == t.push(m));
                assert(s[t.len() as int] == m);
                if t.contains(n) {
                    let k = choose|k: int| 0 <= k < t.len() && t[k] == n;
                    assert(s[k] == n);
                }
                if s.contains(n) && n != m {
                    let k = choose|k: int| 0 <= k < s.len() && s[k] == n;
                    assert(t[k] == n);
                }
            }
            assert(t.contains(n) <==> p.contains_key(n) && low <= n < high - 1);
        }
    }
}

/// There is one ascending sequence of the members of a set.
pub proof fn lemma_ascending_unique(s: Seq<u16>, t: Seq<u16>)
    requires
        ascending(s),
        ascending(t),
        forall|n: u16| #[trigger] s.contains(n) <==> t.contains(n),
    ensures
        s == t,
    decreases s.len(),
{
    if s.len() == 0 {
        if t.len() > 0 {
            assert(t.contains(t[0]));
            assert(s.contains(t[0]));
        }
        assert(s =~= t);
    } else {
        assert(s.contains(s.last()));
        assert(t.contains(s.last()));
        assert(t.len() > 0);
        assert(t.contains(t.last()));
        assert(s.contains(t.last()));
        assert(s.last() == t.last());
        let a = s.drop_last();
        let b = t.drop_last();
        assert forall|n: u16| #[trigger] a.contains(n) <==> b.contains(n) by {
            if a.contains(n) {
                let k = choose|k: int| 0 <= k < a.len() && a[k] == n;
                assert(s[k] == n);
                assert(s.contains(n));
                let m = choose|m: int| 0 <= m < t.len() && t[m] == n;
                assert(b[m] == n);
            }
            if b.contains(n) {
                let k = choose|k: int| 0 <= k < b.len() && b[k] == n;
                assert(t[k] == n);
                assert(t.contains(n));
                assert(s.contains(n));
                let m = choose|m: int| 0 <= m < s.len() && s[m] == n;
                assert(a[m] == n);
            }
        }
        lemma_ascending_unique(a, b);
        assert(s =~= a.push(s.last()));
        assert(t =~= b.push(t.last()));
    }
}

/// The highest number is no lower than any other.
pub proof fn lemma_highest(p: Program, n: u16)
    requires
        p.contains_key(n),
    ensures
        all_numbers(p).len() > 0,
        n <= all_numbers(p).last(),
{
    law_numbers_ascend(p, 0, number_limit());
    let s = all_numbers(p);
    assert(s.contains(n));
}

/// The numbers of a listing end in one column.
pub proof fn law_numbers_are_aligned(p: Program, n: u16)
    requires
        p.contains_key(n),
    ensures
        padding(p, n).len() + number::decimal(n as nat).len() == number_width(p),
{
    lemma_highest(p, n);
    number::lemma_decimal_len(n as nat, all_numbers(p).last() as nat);
}

/// A line changes no line but the one that it numbers.
pub proof fn law_other_lines_stay(p: Program, line: Seq<char>, n: u16)
    requires
        number_in(line) != Some(n),
    ensures
        entered(p, line).contains_key(n) == p.contains_key(n),
        p.contains_key(n) ==> entered(p, line)[n] == p[n],
{
}

/// Of two lines with one number, the later counts.
pub proof fn law_later_line_counts(p: Program, first: Seq<char>, second: Seq<char>)
    requires
        number_in(first) is Some,
        number_in(first) == number_in(second),
    ensures
        entered(entered(p, first), second) == entered(p, second),
{
    assert(entered(entered(p, first), second) =~= entered(p, second));
}

/// Lines with different numbers can be entered in any order.
pub proof fn law_order_of_entry(p: Program, a: Seq<char>, b: Seq<char>)
    requires
        number_in(a) is None || number_in(a) != number_in(b),
    ensures
        entered(entered(p, a), b) == entered(entered(p, b), a),
{
    assert(entered(entered(p, a), b) =~= entered(entered(p, b), a));
}

/// A line number alone takes its line away.
pub proof fn law_bare_number_removes(p: Program, n: u16)
    ensures
        entered(p, number::decimal(n as nat)) == p.remove(n),
{
    let line = number::decimal(n as nat);
    number::lemma_decimal(n as nat);
    number::law_decimal_reads_back(n);
    text::lemma_first_index_at(line, ' ', line.len() as int);
    assert(line.take(line.len() as int) == line);
}

/// Instructions are kept without white space around them.
pub proof fn law_instructions_stay_trimmed(p: Program, line: Seq<char>)
    requires
        instructions_trimmed(p),
    ensures
        instructions_trimmed(entered(p, line)),
{
    let i = text::first_index(line, ' ');
    text::lemma_trimmed(line.skip(i + 1));
}

/// A line of text makes an instruction of one line.
pub proof fn law_instructions_stay_single_line(p: Program, line: Seq<char>)
    requires
        instructions_single_line(p),
        !line.contains('\n'),
    ensures
        instructions_single_line(entered(p, line)),
{
    let i = text::first_index(line, ' ');
    if i < line.len() {
        text::lemma_first_index(line, ' ');
        let rest = line.skip(i + 1);
        text::lemma_trimmed(rest);
        assert forall|c: char| rest.contains(c) implies line.contains(c) by {
            let j = choose|j: int| 0 <= j < rest.len() && rest[j] == c;
            assert(line[j + i + 1] == c);
        }
        assert(!text::trimmed(rest).contains('\n'));
    }
}

/// A file makes instructions of one line each.
pub proof fn law_loaded_instructions_are_single_line(p: Program, contents: Seq<char>)
    requires
        instructions_single_line(p),
    ensures
        instructions_single_line(loaded(p, contents)),
{
    let lines = loaded_lines(contents);
    assert forall|i: int| 0 <= i < lines.len() implies !(#[trigger] lines[i]).contains('\n') by {
        text::lemma_lines_hold(contents, i);
        text::lemma_trimmed(text::line_seq(contents)[i]);
        assert(lines[i] == text::trimmed(text::line_seq(contents)[i]));
    }
    lemma_all_single_line(p, lines);
}

/// Lines of text make instructions of one line each.
proof fn lemma_all_single_line(p: Program, lines: Seq<Seq<char>>)
    requires
        instructions_single_line(p),
        forall|i: int| 0 <= i < lines.len() ==> !(#[trigger] lines[i]).contains('\n'),
    ensures
        instructions_single_line(entered_all(p, lines)),
    decreases lines.len(),
{
    if lines.len() > 0 {
        let rest = lines.drop_last();
        assert forall|i: int| 0 <= i < rest.len() implies !(#[trigger] rest[i]).contains('\n') by {
            assert(rest[i] == lines[i]);
        }
        lemma_all_single_line(p, rest);
        law_instructions_stay_single_line(entered_all(p, rest), lines.last());
    }
}

/// A line of a listing, entered again, is the line that was listed.
pub proof fn law_listed_line_restores(p: Program, q: Program, n: u16)
    requires
        text::is_trimmed(p[n]),
    ensures
        number_in(line_text(p, n)) == Some(n),
        entered(q, line_text(p, n)) == q.insert(n, p[n]),
{
    let line = line_text(p, n);
    let digits = number::decimal(n as nat);
    number::lemma_decimal(n as nat);
    number::law_decimal_reads_back(n);
    assert forall|j: int| 0 <= j < digits.len() implies line[j] != ' ' by {
        assert(line[j] == digits[j]);
    }
    text::lemma_first_index_at(line, ' ', digits.len() as int);
    assert(line.take(digits.len() as int) == digits);
    assert(line.skip(digits.len() as int + 1) == p[n]);
    text::lemma_is_trimmed(p[n]);
}

/// A line of a listing is one line of text.
proof fn lemma_line_text(p: Program, n: u16)
    requires
        text::is_trimmed(p[n]),
        !p[n].contains('\n'),
    ensures
        !line_text(p, n).contains('\n'),
        line_text(p, n).last() != '\r',
{
    let line = line_text(p, n);
    let digits = number::decimal(n as nat);
    number::lemma_decimal(n as nat);
    assert forall|j: int| 0 <= j < line.len() implies line[j] != '\n' by {
        if j < digits.len() {
            assert(line[j] == digits[j]);
        } else if j > digits.len() {
            assert(line[j] == p[n][j - digits.len() - 1]);
            assert(p[n].contains(line[j]));
        }
    }
    if p[n].len() > 0 {
        assert(line.last() == p[n].last());
    } else {
        assert(line.last() == ' ');
    }
}

/// The lines of a saved program.
proof fn lemma_lines_text(p: Program, ns: Seq<u16>)
    requires
        forall|i: int| 0 <= i < ns.len() ==> p.contains_key(#[trigger] ns[i]),
        instructions_trimmed(p),
        instructions_single_line(p),
    ensures
        text::line_seq(lines_text(p, ns)) == ns.map_values(|n: u16| line_text(p, n)),
    decreases ns.len(),
{
    let f = |n: u16| line_text(p, n);
    if ns.len() > 0 {
        let rest = ns.skip(1);
        assert(p.contains_key(ns[0]));
        lemma_line_text(p, ns[0]);
        assert forall|i: int| 0 <= i < rest.len() implies p.contains_key(#[trigger] rest[i]) by {
            assert(rest[i] == ns[i + 1]);
        }
        lemma_lines_text(p, rest);
        text::lemma_line_seq(line_text(p, ns[0]), lines_text(p, rest));
        assert(seq![line_text(p, ns[0])] + rest.map_values(f) =~= ns.map_values(f));
    } else {
        assert(text::line_seq(lines_text(p, ns)) =~= ns.map_values(f));
    }
}

/// A listed line without white space around it restores the line, or takes it
/// away if it is blank.
proof fn lemma_bare_line(p: Program, q: Program, n: u16)
    requires
        text::is_trimmed(p[n]),
    ensures
        entered(q, bare_line(p, n)) == (if p[n].len() > 0 {
            q.insert(n, p[n])
        } else {
            q.remove(n)
        }),
{
    let line = line_text(p, n);
    let digits = number::decimal(n as nat);
    number::lemma_decimal(n as nat);
    assert(line[0] == digits[0]);
    if p[n].len() > 0 {
        assert(line.last() == p[n].last());
        text::lemma_is_trimmed(line);
        law_listed_line_restores(p, q, n);
    } else {
        assert(line =~= digits.push(' '));
        text::lemma_trimmed_push(digits, ' ');
        law_bare_number_removes(q, n);
    }
}

/// Listed lines, entered one by one, restore the lines that were listed.
pub proof fn lemma_entered_all(q: Program, p: Program, ns: Seq<u16>)
    requires
        forall|i: int| 0 <= i < ns.len() ==> p.contains_key(#[trigger] ns[i]),
        instructions_trimmed(p),
    ensures
        ({
            let r = entered_all(q, ns.map_values(|n: u16| bare_line(p, n)));
            forall|n: u16|
                {
                    &&& #[trigger] r.contains_key(n) == (if ns.contains(n) {
                        p[n].len() > 0
                    } else {
                        q.contains_key(n)
                    })
                    &&& r.contains_key(n) ==> r[n] == (if ns.contains(n) {
                        p[n]
                    } else {
                        q[n]
                    })
                }
        }),
    decreases ns.len(),
{
    let f = |n: u16| bare_line(p, n);
    let lines = ns.map_values(f);
    if ns.len() > 0 {
        let rest = ns.drop_last();
        let m = ns.last();
        assert forall|i: int| 0 <= i < rest.len() implies p.contains_key(#[trigger] rest[i]) by {
            assert(rest[i] == ns[i]);
        }
        lemma_entered_all(q, p, rest);
        assert(lines.drop_last() =~= rest.map_values(f));
        assert(lines.last() == bare_line(p, m));
        assert(p.contains_key(m));
        let before = entered_all(q, rest.map_values(f));
        lemma_bare_line(p, before, m);
        let r = entered_all(q, lines);
        assert forall|n: u16|
            {
                &&& #[trigger] r.contains_key(n) == (if ns.contains(n) {
                    p[n].len() > 0
                } else {
                    q.contains_key(n)
                })
                &&& r.contains_key(n) ==> r[n] == (if ns.contains(n) {
                    p[n]
                } else {
                    q[n]
                })
            } by {
            vstd::seq_lib::lemma_seq_contains_after_push(rest, m, n);
            assert(rest.push(m) =~= ns);
            assert(before.contains_key(n) == (if rest.contains(n) {
                p[n].len() > 0
            } else {
                q.contains_key(n)
            }));
        }
    }
}

/// A program that was saved can be loaded: each line that holds an instruction
/// comes back, in place of a line of the same number, and all other lines stay.
/// A blank line is saved as its number alone, which takes the line away. So a
/// program without blank lines is loaded as it was saved.
pub proof fn law_saved_program_loads(p: Program, q: Program)
    requires
        instructions_trimmed(p),
        instructions_single_line(p),
    ensures
        loaded(q, saved_text(p)) == q.remove_keys(p.dom()).union_prefer_right(without_blanks(p)),
        loaded(Map::empty(), saved_text(p)) == without_blanks(p),
        (forall|n: u16| p.contains_key(n) ==> (#[trigger] p[n]).len() > 0) ==> loaded(
            Map::empty(),
            saved_text(p),
        ) == p,
{
    let ns = all_numbers(p);
    law_numbers_ascend(p, 0, number_limit());
    assert forall|i: int| 0 <= i < ns.len() implies p.contains_key(#[trigger] ns[i]) by {
        assert(ns.contains(ns[i]));
    }
    lemma_lines_text(p, ns);
    let lines = loaded_lines(saved_text(p));
    assert(lines =~= ns.map_values(|n: u16| bare_line(p, n)));
    lemma_entered_all(q, p, ns);
    lemma_entered_all(Map::empty(), p, ns);
    assert(loaded(q, saved_text(p)) =~= q.remove_keys(p.dom()).union_prefer_right(
        without_blanks(p),
    ));
    assert(loaded(Map::empty(), saved_text(p)) =~= without_blanks(p));
    if forall|n: u16| p.contains_key(n) ==> (#[trigger] p[n]).len() > 0 {
        assert(without_blanks(p) =~= p);
    }
}

/// A saved program has as many lines as the program.
pub proof fn law_saved_line_count(p: Program)
    requires
        instructions_trimmed(p),
        instructions_single_line(p),
    ensures
        text::line_seq(saved_text(p)).len() == p.len(),
        all_numbers(p).len() == p.len(),
{
    let ns = all_numbers(p);
    law_numbers_ascend(p, 0, number_limit());
    assert forall|i: int| 0 <= i < ns.len() implies p.contains_key(#[trigger] ns[i]) by {
        assert(ns.contains(ns[i]));
    }
    lemma_lines_text(p, ns);
    assert(ns.no_duplicates());
    ns.unique_seq_to_set();
    assert(ns.to_set() =~= p.dom());
}

/// What a line does to the program: a number in front of the first space sets the
/// line to what follows the space, without the white space around it; a number
/// and no space takes the line away; no number does nothing.
pub proof fn law_entry(p: Program, front: Seq<char>, behind: Seq<char>)
    requires
        !front.contains(' '),
    ensures
        number::line_number(front) matches Some(n) ==> entered(p, front) == p.remove(n),
        number::line_number(front) matches Some(n) ==> entered(p, front + seq![' '] + behind)
            == p.insert(n, text::trimmed(behind)),
        number::line_number(front) is None ==> entered(p, front) == p,
        number::line_number(front) is None ==> entered(p, front + seq![' '] + behind) == p,
{
    let line = front + seq![' '] + behind;
    assert(forall|i: int| 0 <= i < front.len() ==> front.contains(#[trigger] front[i]));
    text::lemma_first_index_at(front, ' ', front.len() as int);
    assert(front.take(front.len() as int) =~= front);
    assert forall|j: int| 0 <= j < front.len() implies line[j] != ' ' by {
        assert(line[j] == front[j]);
    }
    text::lemma_first_index_at(line, ' ', front.len() as int);
    assert(line.take(front.len() as int) =~= front);
    assert(line.skip(front.len() as int + 1) =~= behind);
}

/// Lines are entered in turn.
pub proof fn law_entries_in_turn(p: Program, lines: Seq<Seq<char>>, line: Seq<char>)
    ensures
        entered_all(p, seq![]) == p,
        entered_all(p, lines.push(line)) == entered(entered_all(p, lines), line),
{
    assert(lines.push(line).drop_last() == lines);
}

/// Every line of a file is entered, without the white space around it.
pub proof fn law_every_line_is_loaded(contents: Seq<char>)
    ensures
        loaded_lines(contents).len() == text::line_seq(contents).len(),
        forall|i: int|
            0 <= i < loaded_lines(contents).len() ==> #[trigger] loaded_lines(contents)[i]
                == text::trimmed(text::line_seq(contents)[i]),
        forall|p: Program| #[trigger] loaded(p, contents) == entered_all(p, loaded_lines(contents)),
{
}

/// A listed line is the number in decimal, one space, and the whole instruction.
pub proof fn law_listed_line(p: Program, n: u16)
    ensures
        ({
            let line = line_text(p, n);
            let d = number::decimal(n as nat).len() as int;
            &&& line.take(d) == number::decimal(n as nat)
            &&& line[d] == ' '
            &&& line.skip(d + 1) == p[n]
            &&& line.len() == d + 1 + p[n].len()
        }),
{
    let d = number::decimal(n as nat).len() as int;
    assert(line_text(p, n).take(d) =~= number::decimal(n as nat));
    assert(line_text(p, n).skip(d + 1) =~= p[n]);
}

/// A shown line is the listed line, but for spaces in front of it and the colour
/// of its number: with the spaces and the two colour sequences taken out, one in
/// front of the number and one behind it, the listed line is left.
pub proof fn law_shown_line_is_the_listed_line(p: Program, n: u16)
    requires
        p.contains_key(n),
    ensures
        ({
            let shown = line_shown(p, n);
            let d = number::decimal(n as nat).len() as int;
            let a = number_width(p) - d;
            let b = a + 5 + d;
            &&& a >= 0
            &&& shown.take(a) == Seq::new(a as nat, |i: int| ' ')
            &&& shown.subrange(a, a + 5) == seq!['\x1b', '[', '3', '6', 'm']
            &&& shown.subrange(b, b + 4) == seq!['\x1b', '[', '0', 'm']
            &&& shown.subrange(a + 5, b) + shown.skip(b + 4) == line_text(p, n)
            &&& shown.len() == a + 9 + line_text(p, n).len()
        }),
{
    law_numbers_are_aligned(p, n);
    reveal_strlit("\x1b[36m");
    reveal_strlit("\x1b[0m ");
    let shown = line_shown(p, n);
    let digits = number::decimal(n as nat);
    let d = digits.len() as int;
    let a = number_width(p) - d;
    let b = a + 5 + d;
    assert(shown.take(a) =~= Seq::new(a as nat, |i: int| ' '));
    assert(shown.subrange(a, a + 5) =~= seq!['\x1b', '[', '3', '6', 'm']);
    assert(shown.subrange(a + 5, b) =~= digits);
    assert(shown.subrange(b, b + 4) =~= seq!['\x1b', '[', '0', 'm']);
    assert(shown.skip(b + 4) =~= seq![' '] + p[n]);
    assert(digits + (seq![' '] + p[n]) =~= line_text(p, n));
}

/// The numbers of a listing are given the width of the longest number of the
/// whole program.
pub proof fn law_width_is_that_of_the_longest_number(p: Program, n: u16)
    requires
        p.contains_key(n),
    ensures
        number::decimal(n as nat).len() <= number_width(p),
        exists|m: u16|
            p.contains_key(m) && #[trigger] number::decimal(m as nat).len() == number_width(p),
{
    lemma_highest(p, n);
    law_numbers_ascend(p, 0, number_limit());
    let m = all_numbers(p).last();
    number::lemma_decimal_len(n as nat, m as nat);
    assert(all_numbers(p).contains(m));
    assert(p.contains_key(m) && number::decimal(m as nat).len() == number_width(p));
}

/// A file is written line by line: the listed line and a line feed. It holds all
/// lines of the program, in ascending order.
pub proof fn law_lines_are_saved_in_turn(p: Program, ns: Seq<u16>, n: u16)
    ensures
        lines_text(p, seq![]) == Seq::<char>::empty(),
        lines_text(p, ns.push(n)) == lines_text(p, ns) + line_text(p, n) + seq!['\n'],
        saved_text(p) == lines_text(p, numbers(p, 0, 65536)),
    decreases ns.len(),
{
    let all = ns.push(n);
    let end = line_text(p, n) + seq!['\n'];
    assert(end =~= line_text(p, n).push('\n'));
    if ns.len() > 0 {
        law_lines_are_saved_in_turn(p, ns.skip(1), n);
        assert(all.skip(1) =~= ns.skip(1).push(n));
        assert(all[0] == ns[0]);
        assert(lines_text(p, all) =~= lines_text(p, ns) + line_text(p, n) + seq!['\n']);
    } else {
        assert(all.skip(1) =~= ns);
        assert(lines_text(p, all) =~= lines_text(p, ns) + line_text(p, n) + seq!['\n']);
    }
}

/// The lines of a file are the listed lines, in ascending order.
pub proof fn law_saved_lines_are_the_listed_lines(p: Program)
    requires
        instructions_trimmed(p),
        instructions_single_line(p),
    ensures
        text::line_seq(saved_text(p)).len() == all_numbers(p).len(),
        forall|i: int|
            0 <= i < all_numbers(p).len() ==> #[trigger] text::line_seq(saved_text(p))[i]
                == line_text(p, all_numbers(p)[i]),
{
    let ns = all_numbers(p);
    law_numbers_ascend(p, 0, number_limit());
    assert forall|i: int| 0 <= i < ns.len() implies p.contains_key(#[trigger] ns[i]) by {
        assert(ns.contains(ns[i]));
    }
    lemma_lines_text(p, ns);
}

} // verus!
