//! Fetching the program from the machine: a `list` is sent, and the lines of the
//! answer are captured until it ends.

use crate::number;
use crate::program;
use crate::text;
use vstd::prelude::*;

verus! {

/// How long to wait for the first line, in nanoseconds.
pub const ANSWER_LIMIT: u128 = 5_000_000_000;

/// How long to wait for one more line, in nanoseconds.
pub const QUIET_LIMIT: u128 = 1_000_000_000;

/// What was received of the answer. Times are readings of one clock, in
/// nanoseconds.
#[derive(Debug)]
pub struct Capture {
    /// The numbered lines.
    pub lines: Vec<String>,
    /// Whether the machine has said that it is done.
    pub done: bool,
    /// When the last text came in.
    pub last_rx: u128,
}

/// What a capture holds.
#[verifier::ext_equal]
pub struct Answer {
    pub lines: Seq<Seq<char>>,
    pub done: bool,
    pub last_rx: u128,
}

impl View for Capture {
    type V = Answer;

    open spec fn view(&self) -> Answer {
        Answer { lines: text::texts(self.lines@), done: self.done, last_rx: self.last_rx }
    }
}

/// Whether to go on waiting for the answer.
#[derive(Clone, Copy, Debug, PartialEq, Eq, Structural)]
pub enum Verdict {
    /// There may be more to come.
    Wait,
    /// There was no answer.
    TimedOut,
    /// The answer is complete.
    Complete,
}

/// The time from `earlier` to `later`; none if the clock was set back.
pub open spec fn elapsed(earlier: u128, later: u128) -> int {
    if earlier <= later {
        later - earlier
    } else {
        0
    }
}

/// Whether `s` starts with an ASCII digit.
pub open spec fn is_numbered(s: Seq<char>) -> bool {
    s.len() > 0 && '0' <= s[0] <= '9'
}

/// Whether `s` is what a capture keeps of a text: a numbered line, trimmed.
pub open spec fn is_kept(s: Seq<char>) -> bool {
    is_numbered(s) && text::is_trimmed(s)
}

/// The lines of a capture after `received` came in.
pub open spec fn captured(lines: Seq<Seq<char>>, received: Seq<char>) -> Seq<Seq<char>> {
    let line = text::trimmed(received);
    if line != "Ok"@ && is_numbered(line) {
        lines.push(line)
    } else {
        lines
    }
}

/// What a capture holds after `received` came in at `now`.
pub open spec fn taken_in(answer: Answer, received: Seq<char>, now: u128) -> Answer {
    Answer {
        lines: captured(answer.lines, received),
        done: answer.done || ends_answer(received),
        last_rx: now,
    }
}

/// What a fetch gives: the lines of the answer, or what to say without one.
pub open spec fn fetched(
    lines: Seq<Seq<char>>,
    timed_out: bool,
) -> Result<Seq<Seq<char>>, Seq<char>> {
    if timed_out {
        Err(no_response())
    } else {
        Ok(lines)
    }
}

/// The texts of what a fetch gives.
pub open spec fn fetch_texts(
    r: Result<Vec<String>, String>,
) -> Result<Seq<Seq<char>>, Seq<char>> {
    match r {
        Ok(lines) => Ok(text::texts(lines@)),
        Err(e) => Err(e@),
    }
}

/// The lines of a capture after all of `received` came in.
pub open spec fn captured_all(
    lines: Seq<Seq<char>>,
    received: Seq<Seq<char>>,
) -> Seq<Seq<char>>
    decreases received.len(),
{
    if received.len() == 0 {
        lines
    } else {
        captured(captured_all(lines, received.drop_last()), received.last())
    }
}

/// Whether `received` ends the answer.
pub open spec fn ends_answer(received: Seq<char>) -> bool {
    text::trimmed(received) == "Ok"@
}

/// Whether to go on waiting, with the request sent at `start`: a finished answer
/// is complete, and so is one that has gone quiet; no line at all is a timeout.
pub open spec fn verdict_of(
    lines: Seq<Seq<char>>,
    done: bool,
    last_rx: u128,
    start: u128,
    now: u128,
) -> Verdict {
    if done {
        Verdict::Complete
    } else if lines.len() == 0 {
        if elapsed(start, now) > ANSWER_LIMIT {
            Verdict::TimedOut
        } else {
            Verdict::Wait
        }
    } else if elapsed(last_rx, now) > QUIET_LIMIT {
        Verdict::Complete
    } else {
        Verdict::Wait
    }
}

/// What a fetch without an answer says.
pub open spec fn no_response() -> Seq<char> {
    "No response from MSX0 (timeout). Program buffer is unchanged."@
}

/// What a fetch says if the request could not be sent.
pub open spec fn send_error(e: Seq<char>) -> Seq<char> {
    "Failed to write to server: "@ + e
}

/// The request for a listing: `list` and a carriage return.
pub fn list_request() -> (r: Vec<u8>)
    ensures
        r@ == seq![108u8, 105u8, 115u8, 116u8, 13u8],
{
    vec![108u8, 105u8, 115u8, 116u8, 13u8]
}

/// What a fetch says if the request could not be sent for the reason `e`.
pub fn send_failure(e: &str) -> (r: String)
    ensures
        r@ == send_error(e@),
{
    let mut r = "Failed to write to server: ".to_owned();
    r.append(e);
    r
}

/// The time from `earlier` to `later`.
fn time_between(earlier: u128, later: u128) -> (r: u128)
    ensures
        r == elapsed(earlier, later),
{
    if earlier <= later {
        later - earlier
    } else {
        0
    }
}

impl Capture {
    /// A capture that begins at `now`.
    pub fn begin(now: u128) -> (r: Capture)
        ensures
            r.lines@.len() == 0,
            !r.done,
            r.last_rx == now,
    {
        Capture { lines: Vec::new(), done: false, last_rx: now }
    }

    /// Takes in a text that was received at `now`. `Ok` ends the answer; a text
    /// that starts with a digit is a line of it; anything else is passed over.
    pub fn receive(&mut self, received: &str, now: u128)
        ensures
            text::texts(final(self).lines@) == captured(text::texts(old(self).lines@), received@),
            final(self).done == (old(self).done || ends_answer(received@)),
            final(self).last_rx == now,
            old(self).lines@.is_prefix_of(final(self).lines@),
            final(self)@ == taken_in(old(self)@, received@, now),
    {
        let chars = text::to_chars(received);
        let line = text::trim(chars.as_slice());
        self.last_rx = now;
        if text::equals(line, "Ok") {
            self.done = true;
        } else if line.len() > 0 && '0' <= line[0] && line[0] <= '9' {
            let kept = text::from_chars(line);
            proof {
                text::lemma_texts_push(self.lines@, kept);
            }
            self.lines.push(kept);
        }
    }

    /// Whether to go on waiting at `now`, with the request sent at `start`.
    pub fn verdict(&self, start: u128, now: u128) -> (r: Verdict)
        ensures
            r == verdict_of(text::texts(self.lines@), self.done, self.last_rx, start, now),
    {
        if self.done {
            return Verdict::Complete;
        }
        if self.lines.len() == 0 && time_between(start, now) > ANSWER_LIMIT {
            return Verdict::TimedOut;
        }
        if self.lines.len() > 0 && time_between(self.last_rx, now) > QUIET_LIMIT {
            return Verdict::Complete;
        }
        Verdict::Wait
    }

    /// The lines of the answer, or what to say if there was none in time.
    pub fn finish(self, timed_out: bool) -> (r: Result<Vec<String>, String>)
        ensures
            if timed_out {
                r matches Err(m) && m@ == no_response()
            } else {
                r matches Ok(lines) && lines == self.lines
            },
            fetch_texts(r) == fetched(self@.lines, timed_out),
    {
        if timed_out {
            return Err("No response from MSX0 (timeout). Program buffer is unchanged.".to_owned());
        }
        Ok(self.lines)
    }
}

/// A fetch comes to an end: once nothing has come in for a time, there is no more
/// waiting.
pub proof fn law_fetch_ends(
    lines: Seq<Seq<char>>,
    done: bool,
    last_rx: u128,
    start: u128,
    now: u128,
)
    requires
        elapsed(start, now) > ANSWER_LIMIT,
        elapsed(last_rx, now) > QUIET_LIMIT,
    ensures
        verdict_of(lines, done, last_rx, start, now) != Verdict::Wait,
{
}

/// A fetch that has a line or an `Ok` does not time out.
pub proof fn law_answer_is_not_lost(
    lines: Seq<Seq<char>>,
    done: bool,
    last_rx: u128,
    start: u128,
    now: u128,
)
    requires
        done || lines.len() > 0,
    ensures
        verdict_of(lines, done, last_rx, start, now) != Verdict::TimedOut,
{
}

/// A capture holds numbered lines, trimmed, and nothing else.
pub proof fn law_captured_lines_are_numbered(lines: Seq<Seq<char>>, received: Seq<char>)
    requires
        forall|i: int| 0 <= i < lines.len() ==> is_kept(#[trigger] lines[i]),
    ensures
        forall|i: int|
            0 <= i < captured(lines, received).len() ==> is_kept(
                #[trigger] captured(lines, received)[i],
            ),
{
    text::lemma_trimmed(received);
}

/// A listed line is captured without white space around it.
proof fn lemma_line_captured(lines: Seq<Seq<char>>, p: program::Program, n: u16)
    requires
        text::is_trimmed(p[n]),
    ensures
        captured(lines, program::line_text(p, n) + seq!['\r', '\n']) == lines.push(
            program::bare_line(p, n),
        ),
{
    let line = program::line_text(p, n);
    let digits = number::decimal(n as nat);
    number::lemma_decimal(n as nat);
    assert(line[0] == digits[0]);
    let received = line + seq!['\r', '\n'];
    text::lemma_trimmed_drop(received);
    assert(received.drop_last() == line.push('\r'));
    text::lemma_trimmed_drop(line.push('\r'));
    assert(line.push('\r').drop_last() == line);
    if p[n].len() > 0 {
        assert(line.last() == p[n].last());
        text::lemma_is_trimmed(line);
    } else {
        assert(line =~= digits.push(' '));
        text::lemma_trimmed_push(digits, ' ');
    }
    reveal_strlit("Ok");
    assert("Ok"@[0] == 'O');
}

/// A listing that the machine sends is captured line by line.
proof fn lemma_listing_captured(p: program::Program, ns: Seq<u16>)
    requires
        forall|i: int| 0 <= i < ns.len() ==> p.contains_key(#[trigger] ns[i]),
        program::instructions_trimmed(p),
    ensures
        captured_all(
            seq![],
            ns.map_values(|n: u16| program::line_text(p, n) + seq!['\r', '\n']),
        ) == ns.map_values(|n: u16| program::bare_line(p, n)),
    decreases ns.len(),
{
    let f = |n: u16| program::line_text(p, n) + seq!['\r', '\n'];
    let g = |n: u16| program::bare_line(p, n);
    if ns.len() > 0 {
        let rest = ns.drop_last();
        let m = ns.last();
        assert forall|i: int| 0 <= i < rest.len() implies p.contains_key(#[trigger] rest[i]) by {
            assert(rest[i] == ns[i]);
        }
        lemma_listing_captured(p, rest);
        assert(ns.map_values(f).drop_last() =~= rest.map_values(f));
        assert(p.contains_key(m));
        lemma_line_captured(rest.map_values(g), p, m);
        assert(rest.map_values(g).push(g(m)) =~= ns.map_values(g));
    } else {
        assert(captured_all(seq![], ns.map_values(f)) =~= ns.map_values(g));
    }
}

/// A program that the machine lists is fetched whole: the lines of its listing,
/// captured up to its `Ok` and entered into an empty program, are the program,
/// but for blank lines.
pub proof fn law_listed_program_is_fetched(p: program::Program)
    requires
        program::instructions_trimmed(p),
    ensures
        ({
            let listing = program::all_numbers(p).map_values(
                |n: u16| program::line_text(p, n) + seq!['\r', '\n'],
            );
            let answer = listing.push("Ok"@ + seq!['\r', '\n']);
            program::entered_all(Map::empty(), captured_all(seq![], answer))
                == program::without_blanks(p)
        }),
{
    let ns = program::all_numbers(p);
    program::law_numbers_ascend(p, 0, program::number_limit());
    assert forall|i: int| 0 <= i < ns.len() implies p.contains_key(#[trigger] ns[i]) by {
        assert(ns.contains(ns[i]));
    }
    lemma_listing_captured(p, ns);
    program::lemma_entered_all(Map::empty(), p, ns);
    let r = program::entered_all(
        Map::empty(),
        ns.map_values(|n: u16| program::bare_line(p, n)),
    );
    assert(r =~= program::without_blanks(p));
    let listing = ns.map_values(|n: u16| program::line_text(p, n) + seq!['\r', '\n']);
    let last = "Ok"@ + seq!['\r', '\n'];
    reveal_strlit("Ok");
    text::lemma_trimmed_drop(last);
    assert(last.drop_last() == "Ok"@.push('\r'));
    text::lemma_trimmed_push("Ok"@, '\r');
    assert(listing.push(last).drop_last() == listing);
}

/// An answer that has begun is complete once nothing has come in for more than a
/// second, and not before, however long ago the request was sent.
pub proof fn law_an_answer_ends_when_quiet(
    lines: Seq<Seq<char>>,
    last_rx: u128,
    start: u128,
    now: u128,
)
    requires
        lines.len() > 0,
    ensures
        now <= last_rx + 1_000_000_000 ==> verdict_of(lines, false, last_rx, start, now)
            == Verdict::Wait,
        now > last_rx + 1_000_000_000 ==> verdict_of(lines, false, last_rx, start, now)
            == Verdict::Complete,
{
}

/// A request without a line of answer is given up after more than five seconds,
/// and not before, whatever else has come in.
pub proof fn law_silence_times_out(last_rx: u128, start: u128, now: u128)
    ensures
        now <= start + 5_000_000_000 ==> verdict_of(seq![], false, last_rx, start, now)
            == Verdict::Wait,
        now > start + 5_000_000_000 ==> verdict_of(seq![], false, last_rx, start, now)
            == Verdict::TimedOut,
{
}

/// An answer that was ended is complete at once.
pub proof fn law_an_ended_answer_is_complete(
    lines: Seq<Seq<char>>,
    last_rx: u128,
    start: u128,
    now: u128,
)
    ensures
        verdict_of(lines, true, last_rx, start, now) == Verdict::Complete,
{
}

/// Of a text that comes in, the white space around it is dropped. If the rest
/// starts with a digit, all of it is a line of the answer; if it is `Ok`, it ends
/// the answer; no other text does either.
pub proof fn law_received_text(
    lines: Seq<Seq<char>>,
    before: Seq<char>,
    core: Seq<char>,
    after: Seq<char>,
)
    requires
        forall|i: int| 0 <= i < before.len() ==> text::is_white(#[trigger] before[i]),
        forall|i: int| 0 <= i < after.len() ==> text::is_white(#[trigger] after[i]),
        core.len() > 0 ==> !text::is_white(core[0]) && !text::is_white(core.last()),
    ensures
        captured(lines, before + core + after) == (if core.len() > 0 && '0' <= core[0] <= '9' {
            lines.push(core)
        } else {
            lines
        }),
        ends_answer(before + core + after) == (core == seq!['O', 'k']),
{
    text::law_trim(before, core, after);
    reveal_strlit("Ok");
    assert("Ok"@ =~= seq!['O', 'k']);
}

/// Texts are captured in the order in which they come in.
pub proof fn law_texts_are_captured_in_turn(
    lines: Seq<Seq<char>>,
    first: Seq<Seq<char>>,
    received: Seq<char>,
)
    ensures
        captured_all(lines, seq![]) == lines,
        captured_all(lines, first.push(received)) == captured(captured_all(lines, first), received),
{
    assert(first.push(received).drop_last() == first);
}

/// An error in sending ends with its reason.
pub proof fn law_send_error(e: Seq<char>)
    ensures
        "Failed to write to server: "@.is_prefix_of(send_error(e)),
        send_error(e).skip("Failed to write to server: "@.len() as int) == e,
{
    let front = "Failed to write to server: "@;
    assert(send_error(e).subrange(0, front.len() as int) =~= front);
    assert(send_error(e).skip(front.len() as int) =~= e);
}

/// Every text that comes in, whatever it holds, sets the time of the last one; an
/// answer that was ended stays ended; and no line is lost.
pub proof fn law_taking_in(answer: Answer, received: Seq<char>, now: u128)
    ensures
        taken_in(answer, received, now).last_rx == now,
        taken_in(answer, received, now).done == (answer.done || ends_answer(received)),
        taken_in(answer, received, now).lines == captured(answer.lines, received),
        answer.lines.is_prefix_of(taken_in(answer, received, now).lines),
{
    assert(answer.lines =~= taken_in(answer, received, now).lines.subrange(
        0,
        answer.lines.len() as int,
    ));
}

/// A fetch gives all lines of the answer, or no line at all.
pub proof fn law_all_lines_are_given(lines: Seq<Seq<char>>)
    ensures
        fetched(lines, false) == Ok::<Seq<Seq<char>>, Seq<char>>(lines),
        fetched(lines, true) is Err,
        fetched(lines, true) == fetched(seq![], true),
{
}

} // verus!
