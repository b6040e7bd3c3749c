//! The state of a terminal session.

use crate::arguments;
use crate::number;
use crate::program;
use crate::text;
use std::collections::BTreeMap;
use vstd::hash_map::StringHashMap;
use vstd::prelude::*;
use vstd::slice::slice_subrange;

verus! {

/// The state of a terminal session: its modes, the BASIC program as it was
/// entered, and the texts of the terminal commands.
pub struct Msxterm {
    dump_mode: bool,
    lower_mode: bool,
    kanji_mode: bool,
    prog_buff: BTreeMap<u16, String>,
    t_com: StringHashMap<String>,
}

/// What a session holds.
#[verifier::ext_equal]
pub struct Session {
    pub dump_mode: bool,
    pub lower_mode: bool,
    pub kanji_mode: bool,
    pub program: program::Program,
    pub commands: Map<Seq<char>, Seq<char>>,
}

impl Session {
    /// Whether every instruction is kept without white space around it.
    pub open spec fn wf(self) -> bool {
        program::instructions_trimmed(self.program)
    }
}

/// The session at its start.
pub open spec fn fresh() -> Session {
    Session {
        dump_mode: false,
        lower_mode: false,
        kanji_mode: false,
        program: Map::empty(),
        commands: Map::empty(),
    }
}

/// The session with the texts of the terminal commands entered.
pub open spec fn with_commands(s: Session) -> Session {
    Session { commands: s.commands.insert("#list"@, "list Program"@), ..s }
}

impl View for Msxterm {
    type V = Session;

    closed spec fn view(&self) -> Session {
        Session {
            dump_mode: self.dump_mode,
            lower_mode: self.lower_mode,
            kanji_mode: self.kanji_mode,
            program: self.prog_buff@.map_values(|s: String| s@),
            commands: self.t_com@.map_values(|s: String| s@),
        }
    }
}

/// A listing of the program.
#[derive(Debug)]
pub struct Listing {
    /// The lines as they are shown on the screen.
    pub display: Vec<String>,
    /// The lines as they can be entered again.
    pub history: Vec<String>,
}

/// A program that is to be written to a file.
#[derive(Debug)]
pub struct SaveRequest {
    /// Where to write it.
    pub path: String,
    /// What to write.
    pub contents: String,
    /// The number of lines in it.
    pub lines: usize,
}

/// The answer to a `#save` without a path.
pub open spec fn save_usage() -> Seq<char> {
    "Usage: #save <file>"@
}

/// The answer to a `#save` without a program.
pub open spec fn nothing_to_save() -> Seq<char> {
    "Program buffer is empty. Nothing saved. (use #reload_from to fetch the program from MSX0)"@
}

/// `e` as an error about `path`.
pub open spec fn path_error(path: Seq<char>, e: Seq<char>) -> Seq<char> {
    path + ": "@ + e
}

/// Whether `listing` holds the lines of `p` from `start` to `end`, in ascending
/// order.
pub open spec fn lists(p: program::Program, start: u16, end: u16, listing: Listing) -> bool {
    let ns = program::numbers(p, start as int, end + 1);
    &&& text::texts(listing.display@) == ns.map_values(|n: u16| program::line_shown(p, n))
    &&& text::texts(listing.history@) == ns.map_values(|n: u16| program::line_text(p, n))
}

/// Whether `r` is the answer to a `#save` of `p`: the whole program for the file
/// that is named, or else what is missing.
pub open spec fn saves(
    p: program::Program,
    command_line: Seq<char>,
    r: Result<SaveRequest, String>,
) -> bool {
    match arguments::path_arg(command_line) {
        None => r matches Err(m) && m@ == save_usage(),
        Some(path) => if p.is_empty() {
            r matches Err(m) && m@ == nothing_to_save()
        } else {
            &&& r matches Ok(request)
            &&& request.path@ == path
            &&& request.contents@ == program::saved_text(p)
            &&& request.lines == p.len()
        },
    }
}

/// Whether `r` is what a `#save` is answered, with the file written or not: the
/// number of lines, or the reason for the path.
pub open spec fn answers_save(
    request: SaveRequest,
    written: Result<(), String>,
    r: Result<usize, String>,
) -> bool {
    match written {
        Ok(_) => r matches Ok(n) && n == request.lines,
        Err(e) => r matches Err(m) && m@ == path_error(request.path@, e@),
    }
}

impl SaveRequest {
    /// What a `#save` is answered once the file was written, or could not be
    /// written for the reason that `written` gives.
    pub fn outcome(&self, written: Result<(), String>) -> (r: Result<usize, String>)
        ensures
            answers_save(*self, written, r),
    {
        match written {
            Ok(_) => Ok(self.lines),
            Err(e) => {
                let mut m = self.path.clone();
                m.append(": ");
                m.append(e.as_str());
                Err(m)
            },
        }
    }
}

/// The order of the keys of a map is that of the numbers.
proof fn lemma_increasing(s: Seq<u16>)
    requires
        vstd::std_specs::btree::increasing_seq(s),
    ensures
        program::ascending(s),
{
    broadcast use vstd::laws_cmp::group_laws_cmp;
    vstd::std_specs::btree::axiom_increasing_seq_meaning(s);
    assert forall|i: int, j: int| 0 <= i < j < s.len() implies s[i] < s[j] by {
        assert(vstd::std_specs::cmp::OrdSpec::cmp_spec(&s[i], &s[j]) is Less);
    }
}

impl Msxterm {
    /// A session with all modes off and an empty program.
    pub fn new() -> (r: Msxterm)
        ensures
            r@ == fresh(),
            r@.wf(),
    {
        let r = Msxterm {
            dump_mode: false,
            lower_mode: false,
            kanji_mode: false,
            prog_buff: BTreeMap::new(),
            t_com: StringHashMap::new(),
        };
        assert(r@.program =~= Map::empty());
        assert(r@.commands =~= Map::empty());
        r
    }

    /// Enters the texts of the terminal commands.
    pub fn init(&mut self)
        ensures
            final(self)@ == with_commands(old(self)@),
    {
        self.t_com.insert("#list".to_owned(), "list Program".to_owned());
        assert(self@.commands =~= old(self)@.commands.insert("#list"@, "list Program"@));
    }

    /// Whether lines are sent in lower case.
    pub fn lower_mode(&self) -> (r: bool)
        ensures
            r == self@.lower_mode,
    {
        self.lower_mode
    }

    /// Whether lines are sent in the kanji code.
    pub fn kanji_mode(&self) -> (r: bool)
        ensures
            r == self@.kanji_mode,
    {
        self.kanji_mode
    }

    /// Sets whether lines are sent in lower case.
    pub fn set_lower_mode(&mut self, on: bool)
        ensures
            final(self)@ == (Session { lower_mode: on, ..old(self)@ }),
    {
        self.lower_mode = on;
    }

    /// Sets whether lines are sent in the kanji code.
    pub fn set_kanji_mode(&mut self, on: bool)
        ensures
            final(self)@ == (Session { kanji_mode: on, ..old(self)@ }),
    {
        self.kanji_mode = on;
    }

    /// The number of lines of the program.
    pub fn program_len(&self) -> (r: usize)
        ensures
            r == self@.program.len(),
    {
        assert(self@.program.dom() =~= self.prog_buff@.dom());
        self.prog_buff.len()
    }

    /// Enters a line of BASIC: sets or takes away the line that it numbers. A text
    /// without a line number changes nothing.
    pub fn parse_basic(&mut self, line: &str)
        ensures
            final(self)@ == (Session {
                program: program::entered(old(self)@.program, line@),
                ..old(self)@
            }),
            old(self)@.wf() ==> final(self)@.wf(),
    {
        proof {
            if self@.wf() {
                program::law_instructions_stay_trimmed(self@.program, line@);
            }
        }
        let chars = text::to_chars(line);
        let all = chars.as_slice();
        let i = text::find_char(all, ' ');
        if let Some(number) = number::parse_u16(slice_subrange(all, 0, i)) {
            if i < all.len() {
                let instruction = text::trim(slice_subrange(all, i + 1, all.len()));
                self.prog_buff.insert(number, text::from_chars(instruction));
            } else {
                self.prog_buff.remove(&number);
            }
        }
        assert(self@.program =~= program::entered(old(self)@.program, line@));
    }

    /// The instruction of the line `n`.
    fn instruction(&self, n: u16) -> (r: &str)
        requires
            self@.program.contains_key(n),
        ensures
            r@ == self@.program[n],
    {
        match self.prog_buff.get(&n) {
            Some(s) => s.as_str(),
            None => "",
        }
    }

    /// The line `n` as it can be entered again.
    fn line_text(&self, n: u16) -> (r: String)
        requires
            self@.program.contains_key(n),
        ensures
            r@ == program::line_text(self@.program, n),
    {
        let mut r = String::new();
        number::push_decimal(&mut r, n as usize);
        r.push(' ');
        r.append(self.instruction(n));
        assert(r@ =~= program::line_text(self@.program, n));
        r
    }

    /// The line `n` as it is shown, with the numbers in `width` columns.
    fn line_shown(&self, n: u16, width: usize) -> (r: String)
        requires
            self@.program.contains_key(n),
            width == program::number_width(self@.program),
        ensures
            r@ == program::line_shown(self@.program, n),
    {
        proof {
            program::law_numbers_are_aligned(self@.program, n);
        }
        let spaces = width - number::decimal_len(n);
        let mut r = String::new();
        let mut i: usize = 0;
        while i < spaces
            invariant
                i <= spaces,
                r@ == Seq::new(i as nat, |j: int| ' '),
            decreases spaces - i,
        {
            r.push(' ');
            i += 1;
            assert(r@ =~= Seq::new(i as nat, |j: int| ' '));
        }
        assert(r@ =~= program::padding(self@.program, n));
        r.append("\x1b[36m");
        number::push_decimal(&mut r, n as usize);
        r.append("\x1b[0m ");
        r.append(self.instruction(n));
        r
    }

    /// The lines of the program from `start` to `end`, in ascending order.
    pub fn print_basic(&mut self, start: u16, end: u16) -> (r: Listing)
        requires
            start <= end || old(self)@.program.is_empty(),
        ensures
            final(self)@ == old(self)@,
            lists(old(self)@.program, start, end, r),
    {
        let ghost p = self@.program;
        let mut display: Vec<String> = Vec::new();
        let mut history: Vec<String> = Vec::new();
        let all = self.line_numbers(0, 65535);
        let ns = self.line_numbers(start, end);
        proof {
            program::law_numbers_ascend(p, start as int, end + 1);
            assert forall|i: int| 0 <= i < ns@.len() implies p.contains_key(#[trigger] ns@[i]) by {
                assert(ns@.contains(ns@[i]));
            }
            if ns@.len() > 0 {
                program::lemma_highest(p, ns@[0]);
            }
        }
        if ns.len() > 0 {
            let width = number::decimal_len(all[all.len() - 1]);
            let mut i: usize = 0;
            while i < ns.len()
                invariant
                    i <= ns@.len(),
                    self@ == old(self)@,
                    p == self@.program,
                    width == program::number_width(p),
                    forall|j: int| 0 <= j < ns@.len() ==> p.contains_key(#[trigger] ns@[j]),
                    text::texts(display@) == ns@.take(i as int).map_values(
                        |n: u16| program::line_shown(p, n),
                    ),
                    text::texts(history@) == ns@.take(i as int).map_values(
                        |n: u16| program::line_text(p, n),
                    ),
                decreases ns@.len() - i,
            {
                let n = ns[i];
                let shown = self.line_shown(n, width);
                let again = self.line_text(n);
                proof {
                    let done = ns@.take(i as int);
                    assert(ns@.take(i + 1) == done.push(n));
                    text::lemma_texts_push(display@, shown);
                    text::lemma_texts_push(history@, again);
                    done.lemma_push_map_commute(|n: u16| program::line_shown(p, n), n);
                    done.lemma_push_map_commute(|n: u16| program::line_text(p, n), n);
                }
                display.push(shown);
                history.push(again);
                i += 1;
            }
            assert(ns@.take(ns@.len() as int) == ns@);
        }
        assert(text::texts(display@) =~= ns@.map_values(|n: u16| program::line_shown(p, n)));
        assert(text::texts(history@) =~= ns@.map_values(|n: u16| program::line_text(p, n)));
        Listing { display, history }
    }

    /// Takes all lines of the program away.
    pub fn clear_basic(&mut self)
        ensures
            final(self)@ == (Session { program: Map::empty(), ..old(self)@ }),
            final(self)@.wf(),
    {
        self.prog_buff.clear();
        assert(self@.program =~= Map::empty());
    }

    /// The program as it is written to the file that a `#save` names, or why
    /// nothing is written.
    pub fn save_program(&self, command_line: &str) -> (r: Result<SaveRequest, String>)
        ensures
            saves(self@.program, command_line@, r),
    {
        let path = match arguments::parse_path_arg(command_line) {
            Some(path) => path,
            None => {
                return Err("Usage: #save <file>".to_owned());
            },
        };
        assert(self@.program.dom() =~= self.prog_buff@.dom());
        if self.prog_buff.is_empty() {
            return Err(
                "Program buffer is empty. Nothing saved. (use #reload_from to fetch the program from MSX0)".to_owned(),
            );
        }
        let ghost p = self@.program;
        let ns = self.line_numbers(0, 65535);
        proof {
            program::law_numbers_ascend(p, 0, program::number_limit());
        }
        let mut contents = String::new();
        let mut i: usize = 0;
        assert(ns@.skip(0) == ns@);
        while i < ns.len()
            invariant
                i <= ns@.len(),
                p == self@.program,
                forall|n: u16| #[trigger] ns@.contains(n) ==> p.contains_key(n),
                program::lines_text(p, ns@) == contents@ + program::lines_text(p, ns@.skip(i as int)),
            decreases ns@.len() - i,
        {
            let n = ns[i];
            assert(ns@.contains(n));
            let mut line = self.line_text(n);
            line.push('\n');
            contents.append(line.as_str());
            assert(ns@.skip(i as int).skip(1) == ns@.skip(i + 1));
            i += 1;
        }
        assert(contents@ + program::lines_text(p, ns@.skip(i as int)) == contents@);
        Ok(SaveRequest { path, contents, lines: self.prog_buff.len() })
    }

    /// The numbers of the lines of `prog_buff` from `start` to `end`, in ascending
    /// order.
    fn line_numbers(&self, start: u16, end: u16) -> (r: Vec<u16>)
        ensures
            r@ == program::numbers(self@.program, start as int, end + 1),
    {
        let mut r: Vec<u16> = Vec::new();
        let iter = self.prog_buff.iter();
        let ghost pairs = vstd::std_specs::iter::IteratorSpec::remaining(&iter);
        let ghost keys = pairs.map_values(|kv: (&u16, &String)| *kv.0);
        proof {
            lemma_increasing(keys);
        }
        for kv in it: iter
            invariant
                it.seq() == pairs,
                keys == pairs.map_values(|kv: (&u16, &String)| *kv.0),
                program::ascending(keys),
                program::ascending(r@),
                forall|n: u16| #[trigger]
                    r@.contains(n) <==> keys.take(it.index()).contains(n) && start <= n <= end,
        {
            let ghost k = it.index();
            let ghost before = r@;
            let n = *kv.0;
            assert(keys[k] == n);
            assert(keys.take(k + 1) == keys.take(k).push(n));
            if start <= n && n <= end {
                r.push(n);
                assert(forall|i: int| 0 <= i < before.len() ==> before.contains(#[trigger] before[i]));
            }
            assert forall|m: u16| #[trigger] r@.contains(m) <==> keys.take(k + 1).contains(m)
                && start <= m <= end by {
                vstd::seq_lib::lemma_seq_contains_after_push(before, n, m);
                vstd::seq_lib::lemma_seq_contains_after_push(keys.take(k), n, m);
                assert(before.contains(m) <==> keys.take(k).contains(m) && start <= m <= end);
            }
        }
        proof {
            let p = self@.program;
            assert(keys.take(keys.len() as int) == keys);
            assert forall|n: u16| #[trigger] keys.contains(n) <==> p.contains_key(n) by {
                if p.contains_key(n) {
                    assert(self.prog_buff@.contains_key(n));
                    let kv = (&n, &self.prog_buff@[n]);
                    assert(pairs.contains(kv));
                    let k = choose|k: int| 0 <= k < pairs.len() && pairs[k] == kv;
                    assert(keys[k] == n);
                }
                if keys.contains(n) {
                    let k = choose|k: int| 0 <= k < keys.len() && keys[k] == n;
                    assert(self.prog_buff@.contains_key(*pairs[k].0));
                }
            }
            program::law_numbers_ascend(p, start as int, end + 1);
            program::lemma_ascending_unique(r@, program::numbers(p, start as int, end + 1));
        }
        r
    }
}

/// A listing shows each line of the program within its bounds, and no other, in
/// ascending order, and keeps for the history what it shows.
pub proof fn law_listing(p: program::Program, start: u16, end: u16, listing: Listing)
    requires
        lists(p, start, end, listing),
    ensures
        listing.display@.len() == listing.history@.len(),
        listing.history@.len() == program::numbers(p, start as int, end + 1).len(),
        forall|i: int|
            0 <= i < listing.history@.len() ==> (#[trigger] listing.history@[i])@
                == program::line_text(p, program::numbers(p, start as int, end + 1)[i]),
        forall|i: int|
            0 <= i < listing.display@.len() ==> (#[trigger] listing.display@[i])@
                == program::line_shown(p, program::numbers(p, start as int, end + 1)[i]),
        forall|n: u16| #[trigger]
            p.contains_key(n) && start <= n <= end ==> exists|i: int|
                0 <= i < listing.history@.len() && (#[trigger] listing.history@[i])@
                    == program::line_text(p, n) && listing.display@[i]@ == program::line_shown(p, n),
{
    let ns = program::numbers(p, start as int, end + 1);
    let shown = ns.map_values(|n: u16| program::line_shown(p, n));
    let listed = ns.map_values(|n: u16| program::line_text(p, n));
    text::law_texts(listing.display@);
    text::law_texts(listing.history@);
    program::law_numbers_ascend(p, start as int, end + 1);
    assert(listing.history@.len() == listed.len());
    assert(listing.display@.len() == shown.len());
    assert forall|i: int| 0 <= i < ns.len() implies (#[trigger] listing.history@[i])@
        == program::line_text(p, ns[i]) by {
        assert(text::texts(listing.history@)[i] == listed[i]);
    }
    assert forall|i: int| 0 <= i < ns.len() implies (#[trigger] listing.display@[i])@
        == program::line_shown(p, ns[i]) by {
        assert(text::texts(listing.display@)[i] == shown[i]);
    }
    assert forall|n: u16| #[trigger] p.contains_key(n) && start <= n <= end implies exists|i: int|
        0 <= i < listing.history@.len() && (#[trigger] listing.history@[i])@ == program::line_text(
            p,
            n,
        ) && listing.display@[i]@ == program::line_shown(p, n) by {
        assert(ns.contains(n));
        let i = choose|i: int| 0 <= i < ns.len() && ns[i] == n;
        assert(listing.history@[i]@ == program::line_text(p, n));
        assert(listing.display@[i]@ == program::line_shown(p, n));
    }
}

/// A save is granted just in case a path is named and the program has a line.
/// What is then to be written goes to that path, and brings the program back
/// when it is loaded.
pub proof fn law_saving(
    p: program::Program,
    command_line: Seq<char>,
    r: Result<SaveRequest, String>,
)
    requires
        saves(p, command_line, r),
        program::instructions_trimmed(p),
        program::instructions_single_line(p),
    ensures
        r is Ok <==> arguments::path_arg(command_line) is Some && exists|n: u16| p.contains_key(n),
        arguments::path_arg(command_line) is None ==> (r matches Err(m) && m@ == save_usage()),
        arguments::path_arg(command_line) is Some && r is Err ==> (r matches Err(m) && m@
            == nothing_to_save()),
        r matches Ok(request) ==> {
            &&& arguments::path_arg(command_line) == Some(request.path@)
            &&& program::loaded(Map::empty(), request.contents@) == program::without_blanks(p)
            &&& request.lines == text::line_seq(request.contents@).len()
        },
{
    program::law_saved_program_loads(p, Map::empty());
    program::law_saved_line_count(p);
    if p.is_empty() {
        assert(p.dom() =~= Set::empty());
        assert forall|n: u16| !p.contains_key(n) by {
            assert(!p.dom().contains(n));
        }
    } else {
        if forall|n: u16| !p.contains_key(n) {
            assert(p =~= Map::empty());
        }
    }
}

/// An error about a file is the path, a colon, a space, and the reason.
pub proof fn law_path_error(path: Seq<char>, e: Seq<char>)
    ensures
        path_error(path, e) == path + seq![':', ' '] + e,
{
    reveal_strlit(": ");
    assert(": "@ =~= seq![':', ' ']);
}

/// A session starts with no line and all modes off.
pub proof fn law_fresh_session(n: u16)
    ensures
        !fresh().program.contains_key(n),
        !fresh().dump_mode && !fresh().lower_mode && !fresh().kanji_mode,
        fresh().wf(),
{
}

/// Entering the texts of the terminal commands gives `#list` its text and changes
/// nothing else.
pub proof fn law_command_texts(s: Session, word: Seq<char>)
    ensures
        with_commands(s).commands.contains_key("#list"@),
        with_commands(s).commands["#list"@] == "list Program"@,
        word != "#list"@ ==> with_commands(s).commands.contains_key(word)
            == s.commands.contains_key(word),
        word != "#list"@ && s.commands.contains_key(word) ==> with_commands(s).commands[word]
            == s.commands[word],
        with_commands(s).program == s.program,
        with_commands(s).dump_mode == s.dump_mode,
        with_commands(s).lower_mode == s.lower_mode,
        with_commands(s).kanji_mode == s.kanji_mode,
{
}

/// A save that succeeded says how many lines it wrote; one that failed names the
/// path and ends with the reason.
pub proof fn law_save_is_answered(
    request: SaveRequest,
    written: Result<(), String>,
    r: Result<usize, String>,
)
    requires
        answers_save(request, written, r),
    ensures
        r is Ok == written is Ok,
        r matches Ok(n) ==> n == request.lines,
        written matches Err(e) ==> (r matches Err(m) && m@ == request.path@ + seq![':', ' '] + e@),
{
    match written {
        Ok(_) => {},
        Err(e) => {
            law_path_error(request.path@, e@);
        },
    }
}

} // verus!
