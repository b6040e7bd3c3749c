//! BASIC text in lower case, as it is sent to the machine.

use crate::text;
use vstd::prelude::*;

verus! {

/// The lower case mapping of `c` in the Unicode character database, as
/// `char::to_lowercase` yields it.
pub uninterp spec fn lowercase_mapping(c: char) -> Seq<char>;

/// `char::to_lowercase`: one or more characters, which depend on `c` alone. The
/// contract names them and does not say which they are.
#[verifier::external_body]
fn to_lowercase(c: char) -> (r: Vec<char>)
    ensures
        r@ == lowercase_mapping(c),
        r@.len() >= 1,
{
    c.to_lowercase().collect()
}

/// `c` in lower case, with the Unicode mapping `mapping`: by the alphabet in
/// ASCII, elsewhere the first character of the mapping.
pub open spec fn lower_by(c: char, mapping: Seq<char>) -> char {
    if 'A' <= c <= 'Z' {
        (c as int + 32) as char
    } else if c <= '\u{7f}' {
        c
    } else {
        mapping[0]
    }
}

/// `c` in lower case.
pub open spec fn lower(c: char) -> char {
    lower_by(c, lowercase_mapping(c))
}

/// Whether a string literal is open behind `s`, if one was open in front of it
/// just in case of `quoted`.
pub open spec fn quoted_after(s: Seq<char>, quoted: bool) -> bool
    decreases s.len(),
{
    if s.len() == 0 {
        quoted
    } else if s.last() == '"' {
        !quoted_after(s.drop_last(), quoted)
    } else {
        quoted_after(s.drop_last(), quoted)
    }
}

/// `s` in lower case outside of string literals.
pub open spec fn lowered(s: Seq<char>, quoted: bool) -> Seq<char> {
    Seq::new(
        s.len(),
        |i: int|
            if quoted_after(s.take(i + 1), quoted) {
                s[i]
            } else {
                lower(s[i])
            },
    )
}

/// Whether a line in lower case is a remark.
pub open spec fn is_remark(s: Seq<char>) -> bool {
    s.len() >= 3 && s[0] == 'r' && s[1] == 'e' && s[2] == 'm'
}

/// The line that is sent for `line`, which reads `low` in lower case: a remark
/// goes as it was typed. A carriage return ends it.
pub open spec fn sent_line(line: Seq<char>, low: Seq<char>) -> Seq<char> {
    (if is_remark(low) {
        line
    } else {
        low
    }).push('\r')
}

/// The lines as they are sent. A string literal that one line leaves open is
/// still open on the next one.
pub open spec fn sent_lines(lines: Seq<Seq<char>>, quoted: bool) -> Seq<char>
    decreases lines.len(),
{
    if lines.len() == 0 {
        seq![]
    } else {
        let line = text::trimmed(lines[0]);
        sent_line(line, lowered(line, quoted)) + sent_lines(
            lines.skip(1),
            quoted_after(line, quoted),
        )
    }
}

/// The program `s` as it is sent in lower case.
pub open spec fn lowered_program(s: Seq<char>) -> Seq<char> {
    sent_lines(text::line_seq(s), false)
}

/// `c` in lower case, with the Unicode mapping `mapping`.
pub fn choose_char(c: char, mapping: &Vec<char>) -> (r: char)
    requires
        mapping@.len() >= 1,
    ensures
        r == lower_by(c, mapping@),
{
    if 'A' <= c && c <= 'Z' {
        (c as u8 + 32) as char
    } else if c <= '\u{7f}' {
        c
    } else {
        mapping[0]
    }
}

/// `c` in lower case.
pub fn lower_char(c: char) -> (r: char)
    ensures
        r == lower(c),
{
    let mapping = to_lowercase(c);
    choose_char(c, &mapping)
}

/// The line that is sent for `line`, which reads `low` in lower case.
pub fn choose_line(line: &[char], low: &[char]) -> (r: String)
    ensures
        r@ == sent_line(line@, low@),
{
    let remark = low.len() >= 3 && low[0] == 'r' && low[1] == 'e' && low[2] == 'm';
    let mut r = if remark {
        text::from_chars(line)
    } else {
        text::from_chars(low)
    };
    r.push('\r');
    r
}

/// `line` in lower case outside of string literals, and whether a literal is
/// open behind it.
fn lower_line(line: &[char], quoted: bool) -> (r: (Vec<char>, bool))
    ensures
        r.0@ == lowered(line@, quoted),
        r.1 == quoted_after(line@, quoted),
{
    let mut low: Vec<char> = Vec::new();
    let mut open = quoted;
    let mut i: usize = 0;
    while i < line.len()
        invariant
            i <= line@.len(),
            open == quoted_after(line@.take(i as int), quoted),
            low@ == lowered(line@, quoted).take(i as int),
        decreases line@.len() - i,
    {
        let c = line[i];
        assert(line@.take(i + 1).drop_last() == line@.take(i as int));
        if c == '"' {
            open = !open;
        }
        if open {
            low.push(c);
        } else {
            low.push(lower_char(c));
        }
        i += 1;
    }
    assert(line@.take(line@.len() as int) == line@);
    (low, open)
}

/// The program `input` as it is sent in lower case: every line trimmed, in lower
/// case outside of string literals, and ended by a carriage return. Remarks keep
/// their case.
pub fn lower_program(input: &str) -> (r: String)
    ensures
        r@ == lowered_program(input@),
{
    let chars = text::to_chars(input);
    let lines = text::lines(chars.as_slice());
    let ghost model = text::line_seq(input@);
    let mut output = String::new();
    let mut quoted = false;
    let mut i: usize = 0;
    assert(model.skip(0) == model);
    while i < lines.len()
        invariant
            i <= lines@.len(),
            text::slices_hold(lines@, model),
            sent_lines(model, false) == output@ + sent_lines(model.skip(i as int), quoted),
        decreases lines@.len() - i,
    {
        let line = text::trim(lines[i]);
        let (low, open) = lower_line(line, quoted);
        let sent = choose_line(line, low.as_slice());
        assert(model.skip(i as int)[0] == model[i as int]);
        assert(model.skip(i as int).skip(1) == model.skip(i + 1));
        output.append(sent.as_str());
        quoted = open;
        i += 1;
    }
    assert(output@ + sent_lines(model.skip(i as int), quoted) == output@);
    output
}

/// Where a literal is open after `s`, the state before it decides.
proof fn lemma_quoted_after_add(s: Seq<char>, t: Seq<char>, quoted: bool)
    ensures
        quoted_after(s + t, quoted) == quoted_after(t, quoted_after(s, quoted)),
    decreases t.len(),
{
    if t.len() == 0 {
        assert(s + t == s);
    } else {
        lemma_quoted_after_add(s, t.drop_last(), quoted);
        assert((s + t).drop_last() == s + t.drop_last());
        assert((s + t).last() == t.last());
    }
}

/// A text without quotation marks leaves the state as it was.
proof fn lemma_no_quote(s: Seq<char>, quoted: bool)
    requires
        !s.contains('"'),
    ensures
        quoted_after(s, quoted) == quoted,
    decreases s.len(),
{
    if s.len() > 0 {
        assert(s.contains(s.last()));
        assert forall|c: char| s.drop_last().contains(c) implies s.contains(c) by {
            let k = choose|k: int| 0 <= k < s.drop_last().len() && s.drop_last()[k] == c;
            assert(s[k] == c);
        }
        lemma_no_quote(s.drop_last(), quoted);
    }
}

/// A string literal keeps its case: between two quotation marks, with no literal
/// open in front of the first, no character changes.
pub proof fn law_literals_keep_their_case(before: Seq<char>, literal: Seq<char>, after: Seq<char>)
    requires
        !quoted_after(before, false),
        !literal.contains('"'),
    ensures
        ({
            let quoted = seq!['"'] + literal + seq!['"'];
            let low = lowered(before + quoted + after, false);
            low.subrange(before.len() as int, (before + quoted).len() as int) == quoted
        }),
{
    let quoted = seq!['"'] + literal + seq!['"'];
    let s = before + quoted + after;
    let low = lowered(s, false);
    let n = before.len() as int;
    assert forall|k: int| 0 <= k < quoted.len() implies low[n + k] == quoted[k] by {
        if k <= literal.len() {
            let part = literal.take(k);
            assert(s.take(n + k + 1) == before + (seq!['"'] + part));
            assert forall|c: char| part.contains(c) implies literal.contains(c) by {
                let j = choose|j: int| 0 <= j < part.len() && part[j] == c;
                assert(literal[j] == c);
            }
            lemma_quoted_after_add(before, seq!['"'] + part, false);
            lemma_quoted_after_add(seq!['"'], part, false);
            lemma_no_quote(part, true);
            reveal_with_fuel(quoted_after, 2);
            assert(quoted_after(seq!['"'], false));
        } else {
            assert(quoted[k] == '"');
        }
    }
    assert(low.subrange(n, (before + quoted).len() as int) =~= quoted);
}

/// Outside of string literals, letters of the alphabet go in lower case and all
/// other ASCII characters go as they are.
pub proof fn law_plain_text_is_lowered(s: Seq<char>, quoted: bool, i: int)
    requires
        0 <= i < s.len(),
        !quoted_after(s.take(i + 1), quoted),
        s[i] <= '\u{7f}',
    ensures
        'A' <= s[i] <= 'Z' ==> lowered(s, quoted)[i] as int == s[i] as int - 'A' as int
            + 'a' as int,
        !('A' <= s[i] <= 'Z') ==> lowered(s, quoted)[i] == s[i],
{
}

/// A line that starts with `REM` in any case, and does not continue a literal,
/// is sent as it was typed, but for the white space around it.
pub proof fn law_remarks_keep_their_case(s: Seq<char>)
    requires
        !s.contains('\n'),
        ({
            let line = text::trimmed(s);
            &&& line.len() >= 3
            &&& line[0] == 'r' || line[0] == 'R'
            &&& line[1] == 'e' || line[1] == 'E'
            &&& line[2] == 'm' || line[2] == 'M'
        }),
    ensures
        lowered_program(s) == text::trimmed(s).push('\r'),
{
    let line = text::trimmed(s);
    lemma_single_line(s);
    assert(!line.take(1).contains('"') && !line.take(2).contains('"') && !line.take(3).contains('"'));
    lemma_no_quote(line.take(1), false);
    lemma_no_quote(line.take(2), false);
    lemma_no_quote(line.take(3), false);
    let low = lowered(line, false);
    assert(low[0] == lower(line[0]));
    assert(low[1] == lower(line[1]));
    assert(low[2] == lower(line[2]));
}

/// A text without line feeds is one line.
proof fn lemma_single_line(s: Seq<char>)
    requires
        !s.contains('\n'),
    ensures
        s.len() > 0 ==> text::line_seq(s) == seq![s],
        s.len() > 0 ==> lowered_program(s) == sent_line(
            text::trimmed(s),
            lowered(text::trimmed(s), false),
        ),
        s.len() == 0 ==> lowered_program(s) == Seq::<char>::empty(),
{
    text::lemma_first_index(s, '\n');
    if s.len() > 0 {
        let rest = text::line_seq(s).skip(1);
        assert(rest =~= Seq::<Seq<char>>::empty());
        let line = text::trimmed(s);
        assert(sent_lines(rest, quoted_after(line, false)) =~= Seq::<char>::empty());
        assert(lowered_program(s) =~= sent_line(line, lowered(line, false)));
    }
}

/// Quotation marks are in the same places in lower case.
proof fn lemma_lowered_quotes(s: Seq<char>, quoted: bool, k: int)
    requires
        0 <= k <= s.len(),
        forall|i: int| 0 <= i < s.len() ==> #[trigger] s[i] <= '\u{7f}',
    ensures
        quoted_after(lowered(s, quoted).take(k), quoted) == quoted_after(s.take(k), quoted),
    decreases k,
{
    if k > 0 {
        lemma_lowered_quotes(s, quoted, k - 1);
        let low = lowered(s, quoted);
        assert(low.take(k).drop_last() == low.take(k - 1));
        assert(s.take(k).drop_last() == s.take(k - 1));
        assert(low.take(k).last() == low[k - 1]);
        assert(s.take(k).last() == s[k - 1]);
    }
}

/// What was sent in lower case is in lower case: for a line of ASCII text, a
/// second pass changes nothing.
pub proof fn law_lower_case_is_stable(s: Seq<char>)
    requires
        !s.contains('\n'),
        forall|i: int| 0 <= i < s.len() ==> #[trigger] s[i] <= '\u{7f}',
    ensures
        lowered_program(lowered_program(s)) == lowered_program(s),
{
    lemma_single_line(s);
    if s.len() > 0 {
        let line = text::trimmed(s);
        text::lemma_trimmed(s);
        let low = lowered(line, false);
        assert forall|i: int| 0 <= i < line.len() implies #[trigger] line[i] <= '\u{7f}' && line[i]
            != '\n' by {
            assert(line.contains(line[i]));
            let k = choose|k: int| 0 <= k < s.len() && s[k] == line[i];
            assert(s[k] <= '\u{7f}');
        }
        let again = lowered(low, false);
        assert forall|i: int| 0 <= i < low.len() implies again[i] == low[i] by {
            lemma_lowered_quotes(line, false, i + 1);
        }
        assert(again =~= low);
        let kept = if is_remark(low) {
            line
        } else {
            low
        };
        assert(text::is_trimmed(kept));
        text::lemma_trimmed_push(kept, '\r');
        let sent = kept.push('\r');
        assert(!sent.contains('\n'));
        lemma_single_line(sent);
    }
}

/// A literal is open behind a text just in case the number of quotation marks in
/// it is odd, or even if one was open in front of it.
pub proof fn law_quotation_marks_open_and_close(s: Seq<char>, quoted: bool)
    ensures
        quoted_after(s, quoted) == (quoted != (s.filter(|c: char| c == '"').len() % 2 == 1)),
    decreases s.len(),
{
    reveal(Seq::filter);
    if s.len() > 0 {
        law_quotation_marks_open_and_close(s.drop_last(), quoted);
    }
}

/// A text goes to lower case character by character: one that a literal holds
/// stays, any other is lowered.
pub proof fn law_characters_are_lowered_in_turn(s: Seq<char>, c: char, quoted: bool)
    ensures
        lowered(Seq::<char>::empty(), quoted) == Seq::<char>::empty(),
        lowered(s.push(c), quoted) == lowered(s, quoted).push(
            if quoted_after(s.push(c), quoted) {
                c
            } else {
                lower(c)
            },
        ),
{
    let t = s.push(c);
    assert(t.take(t.len() as int) == t);
    assert forall|i: int| 0 <= i < s.len() implies lowered(t, quoted)[i] == lowered(
        s,
        quoted,
    )[i] by {
        assert(t.take(i + 1) == s.take(i + 1));
    }
    assert(lowered(t, quoted).drop_last() =~= lowered(s, quoted));
    assert(lowered(Seq::<char>::empty(), quoted) =~= Seq::<char>::empty());
}

/// A line that does not start with the three letters of `REM`, in whatever case,
/// is sent in lower case but for its literals, without the white space around it
/// and with one carriage return behind it.
pub proof fn law_other_lines_are_lowered(s: Seq<char>)
    requires
        s.len() > 0,
        !s.contains('\n'),
        ({
            let line = text::trimmed(s);
            ||| line.len() < 3
            ||| line[0] <= '\u{7f}' && line[0] != 'r' && line[0] != 'R'
            ||| line[1] <= '\u{7f}' && line[1] != 'e' && line[1] != 'E'
            ||| line[2] <= '\u{7f}' && line[2] != 'm' && line[2] != 'M'
        }),
    ensures
        lowered_program(s) == lowered(text::trimmed(s), false).push('\r'),
{
    lemma_single_line(s);
    let line = text::trimmed(s);
    let low = lowered(line, false);
    if line.len() >= 3 {
        assert(low[0] == line[0] || low[0] == lower(line[0]));
        assert(low[1] == line[1] || low[1] == lower(line[1]));
        assert(low[2] == line[2] || low[2] == lower(line[2]));
    }
}

/// A line is sent as it was typed, but for the white space around it, just in
/// case it reads `rem` in lower case in front; otherwise in lower case. Either
/// way one carriage return follows.
pub proof fn law_a_line_is_sent(line: Seq<char>, low: Seq<char>)
    ensures
        seq!['r', 'e', 'm'].is_prefix_of(low) ==> sent_line(line, low) == line + seq!['\r'],
        !seq!['r', 'e', 'm'].is_prefix_of(low) ==> sent_line(line, low) == low + seq!['\r'],
{
    let rem = seq!['r', 'e', 'm'];
    if low.len() >= 3 {
        assert(low.subrange(0, 3)[0] == low[0]);
        assert(low.subrange(0, 3)[1] == low[1]);
        assert(low.subrange(0, 3)[2] == low[2]);
        if low[0] == 'r' && low[1] == 'e' && low[2] == 'm' {
            assert(low.subrange(0, 3) =~= rem);
        }
    }
    assert(line + seq!['\r'] =~= line.push('\r'));
    assert(low + seq!['\r'] =~= low.push('\r'));
}

/// Lines are sent one by one: what a program sends is what its first line sends
/// and then what the others send. A literal that is still open at the end of the
/// line is open at the start of the next.
pub proof fn law_lines_are_sent_in_turn(line: Seq<char>, rest: Seq<Seq<char>>, quoted: bool)
    ensures
        sent_lines(seq![], quoted) == Seq::<char>::empty(),
        sent_lines(seq![line], quoted) == sent_line(
            text::trimmed(line),
            lowered(text::trimmed(line), quoted),
        ),
        sent_lines(seq![line] + rest, quoted) == sent_lines(seq![line], quoted) + sent_lines(
            rest,
            quoted_after(text::trimmed(line), quoted),
        ),
{
    let one = seq![line];
    let all = one + rest;
    let open = quoted_after(text::trimmed(line), quoted);
    assert(one.skip(1) =~= Seq::<Seq<char>>::empty());
    assert(all.skip(1) =~= rest);
    assert(sent_lines(one.skip(1), open) =~= Seq::<char>::empty());
    let sent = sent_line(text::trimmed(line), lowered(text::trimmed(line), quoted));
    assert(sent_lines(one, quoted) =~= sent);
}

/// A program is sent as its first line and then the rest, which is a program of
/// its own unless the line leaves a literal open.
pub proof fn law_programs_are_sent_line_by_line(first: Seq<char>, rest: Seq<char>)
    requires
        !first.contains('\n'),
    ensures
        lowered_program(first + seq!['\n'] + rest) == lowered_program(first + seq!['\n'])
            + sent_lines(text::line_seq(rest), quoted_after(text::trimmed(first), false)),
        !quoted_after(text::trimmed(first), false) ==> lowered_program(first + seq!['\n'] + rest)
            == lowered_program(first + seq!['\n']) + lowered_program(rest),
{
    let nothing = Seq::<char>::empty();
    assert(first + seq!['\n'] =~= first + seq!['\n'] + nothing);
    text::law_lines(nothing, nothing);
    if first.len() > 0 && first.last() == '\r' {
        let a = first.drop_last();
        assert(first =~= a + seq!['\r']);
        assert forall|i: int| 0 <= i < a.len() implies a[i] != '\n' by {
            assert(first.contains(first[i]));
        }
        text::law_lines(a, rest);
        text::law_lines(a, nothing);
        assert(first + seq!['\n'] + rest =~= a + seq!['\r', '\n'] + rest);
        assert(first + seq!['\n'] + nothing =~= a + seq!['\r', '\n'] + nothing);
        text::lemma_trimmed_drop(first);
        law_lines_are_sent_in_turn(a, text::line_seq(rest), false);
        law_lines_are_sent_in_turn(a, text::line_seq(nothing), false);
        assert(seq![a] + text::line_seq(nothing) =~= seq![a]);
    } else {
        text::law_lines(first, rest);
        text::law_lines(first, nothing);
        law_lines_are_sent_in_turn(first, text::line_seq(rest), false);
        law_lines_are_sent_in_turn(first, text::line_seq(nothing), false);
        assert(seq![first] + text::line_seq(nothing) =~= seq![first]);
    }
}

/// Whatever is sent ends with a carriage return.
pub proof fn law_sent_text_ends_with_a_return(s: Seq<char>)
    ensures
        s.len() > 0 ==> lowered_program(s).len() > 0 && lowered_program(s).last() == '\r',
        s.len() == 0 ==> lowered_program(s) == Seq::<char>::empty(),
{
    if s.len() > 0 {
        text::lemma_first_index(s, '\n');
        assert(text::line_seq(s).len() > 0);
        lemma_sent_lines_end(text::line_seq(s), false);
    }
}

/// Lines that are sent end with a carriage return.
proof fn lemma_sent_lines_end(lines: Seq<Seq<char>>, quoted: bool)
    requires
        lines.len() > 0,
    ensures
        sent_lines(lines, quoted).len() > 0,
        sent_lines(lines, quoted).last() == '\r',
    decreases lines.len(),
{
    let line = text::trimmed(lines[0]);
    let rest = lines.skip(1);
    let open = quoted_after(line, quoted);
    if rest.len() > 0 {
        lemma_sent_lines_end(rest, open);
    } else {
        assert(sent_lines(rest, open) =~= Seq::<char>::empty());
    }
}

} // verus!
