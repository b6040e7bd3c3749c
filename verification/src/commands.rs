//! The terminal commands: what a typed line asks for, and what is done about it.

use crate::arguments;
use crate::fetch;
use crate::hex;
use crate::lower;
use crate::number;
use crate::program;
use crate::terminal::{Listing, Msxterm, SaveRequest};
use crate::terminal;
use crate::text;
use vstd::prelude::*;

verus! {

/// The byte that stops a running program.
pub const U_BREAK: u8 = 0x03;

/// The byte that is sent at the end of input.
pub const U_PAUSE: u8 = 0x7b;

/// What a typed line asks for.
#[derive(Clone, Copy, Debug, PartialEq, Eq, Structural)]
pub enum Request {
    Quit,
    Hex,
    DumpOn,
    DumpOff,
    LowsendOn,
    LowsendOff,
    KanjiOn,
    KanjiOff,
    Emacs,
    Vi,
    ClearHistory,
    New,
    Load,
    List,
    Save,
    ReloadFrom,
    /// No terminal command: a line for the machine.
    Line,
}

/// A message to the receiving side.
#[derive(Clone, Copy, Debug, PartialEq, Eq, Structural)]
pub enum Command {
    DumpModeOn,
    DumpModeOff,
    KanjiModeOn,
    KanjiModeOff,
}

/// The key bindings of the line editor.
#[derive(Clone, Copy, Debug, PartialEq, Eq, Structural)]
pub enum EditMode {
    Emacs,
    Vi,
}

/// What is to be done about a typed line.
#[derive(Debug)]
pub enum Action {
    /// End the session.
    Quit,
    /// Send these bytes.
    SendBytes(Vec<u8>),
    /// Pass the message to the receiving side and show the text.
    Notify(Command, String),
    /// Show the text.
    Show(String),
    /// Change the key bindings.
    Edit(EditMode),
    /// Clear the history and show the text.
    ClearHistory(String),
    /// Load the program from the file of this path, or show why there is none.
    Load(Result<String, String>),
    /// Show the listing and keep it in the history.
    List(Listing),
    /// Write the program to a file, or show why not.
    Save(Result<SaveRequest, String>),
    /// Fetch the program from the machine.
    Reload,
    /// Send this text in the character code of the machine.
    SendText(String),
}

/// A program that was loaded from a file.
#[derive(Debug)]
pub struct Loaded {
    /// The lines, for the history.
    pub history: Vec<String>,
    /// The text to send.
    pub outgoing: String,
}

/// The word of a terminal command.
pub open spec fn command_word(request: Request) -> Seq<char> {
    match request {
        Request::Quit => "#quit"@,
        Request::Hex => "#hex"@,
        Request::DumpOn => "#dump_on"@,
        Request::DumpOff => "#dump_off"@,
        Request::LowsendOn => "#lowsend_on"@,
        Request::LowsendOff => "#lowsend_off"@,
        Request::KanjiOn => "#kanji_on"@,
        Request::KanjiOff => "#kanji_off"@,
        Request::Emacs => "#emacs"@,
        Request::Vi => "#vi"@,
        Request::ClearHistory => "#clear_history"@,
        Request::New => "#new"@,
        Request::Load => "#load"@,
        Request::List => "#list"@,
        Request::Save => "#save"@,
        Request::ReloadFrom => "#reload_from"@,
        Request::Line => seq![],
    }
}

/// Whether `line` starts with the word of the command `request`.
pub open spec fn asks(line: Seq<char>, request: Request) -> bool {
    command_word(request).is_prefix_of(line)
}

/// What `line` asks for: the first command whose word it starts with.
pub open spec fn request_of(line: Seq<char>) -> Request {
    if asks(line, Request::Quit) {
        Request::Quit
    } else if asks(line, Request::Hex) {
        Request::Hex
    } else if asks(line, Request::DumpOn) {
        Request::DumpOn
    } else if asks(line, Request::DumpOff) {
        Request::DumpOff
    } else if asks(line, Request::LowsendOn) {
        Request::LowsendOn
    } else if asks(line, Request::LowsendOff) {
        Request::LowsendOff
    } else if asks(line, Request::KanjiOn) {
        Request::KanjiOn
    } else if asks(line, Request::KanjiOff) {
        Request::KanjiOff
    } else if asks(line, Request::Emacs) {
        Request::Emacs
    } else if asks(line, Request::Vi) {
        Request::Vi
    } else if asks(line, Request::ClearHistory) {
        Request::ClearHistory
    } else if asks(line, Request::New) {
        Request::New
    } else if asks(line, Request::Load) {
        Request::Load
    } else if asks(line, Request::List) {
        Request::List
    } else if asks(line, Request::Save) {
        Request::Save
    } else if asks(line, Request::ReloadFrom) {
        Request::ReloadFrom
    } else {
        Request::Line
    }
}

/// `s` with each line ending as one carriage return.
pub open spec fn with_returns(s: Seq<char>) -> Seq<char>
    decreases s.len(),
{
    if s.len() == 0 {
        seq![]
    } else if s[0] == '\r' && s.len() > 1 && s[1] == '\n' {
        seq!['\r'] + with_returns(s.skip(2))
    } else if s[0] == '\n' {
        seq!['\r'] + with_returns(s.skip(1))
    } else {
        seq![s[0]] + with_returns(s.skip(1))
    }
}

/// The lines of an input. A carriage return, a line feed, or the one followed by
/// the other stands between two lines.
pub open spec fn lines_of_input(s: Seq<char>) -> Seq<Seq<char>> {
    text::pieces(with_returns(s), '\r')
}

/// The text `s` as it is sent.
pub open spec fn outgoing(lower_mode: bool, s: Seq<char>) -> Seq<char> {
    if lower_mode {
        lower::lowered_program(s)
    } else {
        s
    }
}

/// The lines, each ended by a carriage return.
pub open spec fn returned(lines: Seq<Seq<char>>) -> Seq<char>
    decreases lines.len(),
{
    if lines.len() == 0 {
        seq![]
    } else {
        returned(lines.drop_last()) + lines.last().push('\r')
    }
}

/// A message that counts lines.
pub open spec fn counted(n: nat, what: Seq<char>) -> Seq<char> {
    "Ok ("@ + number::decimal(n) + what
}

/// The key bindings of the name `name`.
pub open spec fn mode_named(name: Seq<char>) -> Option<EditMode> {
    if name == "emacs"@ {
        Some(EditMode::Emacs)
    } else if name == "vi"@ {
        Some(EditMode::Vi)
    } else {
        None
    }
}

/// The session after `line` was typed.
pub open spec fn executed(s: terminal::Session, line: Seq<char>) -> terminal::Session {
    match request_of(line) {
        Request::LowsendOn => terminal::Session { lower_mode: true, ..s },
        Request::LowsendOff => terminal::Session { lower_mode: false, ..s },
        Request::KanjiOn => terminal::Session { kanji_mode: true, ..s },
        Request::KanjiOff => terminal::Session { kanji_mode: false, ..s },
        Request::New => terminal::Session { program: Map::empty(), ..s },
        Request::Line => terminal::Session { program: program::entered(s.program, line), ..s },
        _ => s,
    }
}

/// The session after the lines `basic` of a file were entered.
pub open spec fn after_load(s: terminal::Session, basic: Seq<Seq<char>>) -> terminal::Session {
    terminal::Session {
        program: program::entered_all(s.program, program::all_trimmed(basic)),
        ..s
    }
}

/// What is sent when the lines `basic` of a file are entered.
pub open spec fn sent_load(lower_mode: bool, basic: Seq<Seq<char>>) -> Seq<char> {
    outgoing(lower_mode, returned(program::all_trimmed(basic)))
}

/// The session after `lines` were fetched: they are the program.
pub open spec fn reloaded(s: terminal::Session, lines: Seq<Seq<char>>) -> terminal::Session {
    terminal::Session { program: program::entered_all(Map::empty(), lines), ..s }
}

/// The highest line that a `#list` shows.
pub const LAST_LISTED: u16 = 65530;

/// Whether `action` is what is to be done about `line`.
pub open spec fn answers(s: terminal::Session, line: Seq<char>, action: Action) -> bool {
    match request_of(line) {
        Request::Quit => action is Quit,
        Request::Hex => action matches Action::SendBytes(b) && b@ == hex::hex_arg(line),
        Request::DumpOn => {
            &&& action matches Action::Notify(c, m)
            &&& c == Command::DumpModeOn
            &&& m@ == "Output dump mode On"@
        },
        Request::DumpOff => {
            &&& action matches Action::Notify(c, m)
            &&& c == Command::DumpModeOff
            &&& m@ == "Output dump mode Off"@
        },
        Request::LowsendOn => action matches Action::Show(m) && m@ == "Lower Case send mode On"@,
        Request::LowsendOff => action matches Action::Show(m) && m@
            == "Lower Case send mode Off"@,
        Request::KanjiOn => {
            &&& action matches Action::Notify(c, m)
            &&& c == Command::KanjiModeOn
            &&& m@ == "Kanji mode On"@
        },
        Request::KanjiOff => {
            &&& action matches Action::Notify(c, m)
            &&& c == Command::KanjiModeOff
            &&& m@ == "Kanji mode Off"@
        },
        Request::Emacs => action matches Action::Edit(e) && e == EditMode::Emacs,
        Request::Vi => action matches Action::Edit(e) && e == EditMode::Vi,
        Request::ClearHistory => action matches Action::ClearHistory(m) && m@
            == "History is cleared."@,
        Request::New => action matches Action::Show(m) && m@ == "Program Buffer is cleared."@,
        Request::Load => action matches Action::Load(r) && (match arguments::path_arg(line) {
            Some(path) => r matches Ok(p) && p@ == path,
            None => r matches Err(m) && m@ == "Usage: #load <file>"@,
        }),
        Request::List => action matches Action::List(listing) && terminal::lists(
            s.program,
            0,
            LAST_LISTED,
            listing,
        ),
        Request::Save => action matches Action::Save(r) && terminal::saves(s.program, line, r),
        Request::ReloadFrom => action is Reload,
        Request::Line => action matches Action::SendText(t) && t@ == outgoing(
            s.lower_mode,
            line.push('\r'),
        ),
    }
}

/// What `line` asks for.
pub fn classify(line: &str) -> (r: Request)
    ensures
        r == request_of(line@),
{
    let chars = text::to_chars(line);
    let s = chars.as_slice();
    if text::starts_with(s, "#quit") {
        Request::Quit
    } else if text::starts_with(s, "#hex") {
        Request::Hex
    } else if text::starts_with(s, "#dump_on") {
        Request::DumpOn
    } else if text::starts_with(s, "#dump_off") {
        Request::DumpOff
    } else if text::starts_with(s, "#lowsend_on") {
        Request::LowsendOn
    } else if text::starts_with(s, "#lowsend_off") {
        Request::LowsendOff
    } else if text::starts_with(s, "#kanji_on") {
        Request::KanjiOn
    } else if text::starts_with(s, "#kanji_off") {
        Request::KanjiOff
    } else if text::starts_with(s, "#emacs") {
        Request::Emacs
    } else if text::starts_with(s, "#vi") {
        Request::Vi
    } else if text::starts_with(s, "#clear_history") {
        Request::ClearHistory
    } else if text::starts_with(s, "#new") {
        Request::New
    } else if text::starts_with(s, "#load") {
        Request::Load
    } else if text::starts_with(s, "#list") {
        Request::List
    } else if text::starts_with(s, "#save") {
        Request::Save
    } else if text::starts_with(s, "#reload_from") {
        Request::ReloadFrom
    } else {
        Request::Line
    }
}

/// The key bindings of the name `name`.
pub fn edit_mode(name: &str) -> (r: Option<EditMode>)
    ensures
        r == mode_named(name@),
{
    let chars = text::to_chars(name);
    if text::equals(chars.as_slice(), "emacs") {
        Some(EditMode::Emacs)
    } else if text::equals(chars.as_slice(), "vi") {
        Some(EditMode::Vi)
    } else {
        None
    }
}

/// The lines of an input, which may hold several.
pub fn input_lines(input: &str) -> (r: Vec<String>)
    ensures
        text::texts(r@) == lines_of_input(input@),
{
    let chars = text::to_chars(input);
    let mut plain: Vec<char> = Vec::new();
    let mut i: usize = 0;
    assert(chars@.skip(0) == chars@);
    while i < chars.len()
        invariant
            i <= chars@.len(),
            with_returns(chars@) == plain@ + with_returns(chars@.skip(i as int)),
        decreases chars@.len() - i,
    {
        let ghost rest = chars@.skip(i as int);
        let c = chars[i];
        assert(rest[0] == c);
        assert(rest.skip(1) == chars@.skip(i + 1));
        if c == '\r' && i + 1 < chars.len() && chars[i + 1] == '\n' {
            assert(rest[1] == '\n');
            assert(rest.skip(2) == chars@.skip(i + 2));
            plain.push('\r');
            i += 2;
        } else if c == '\n' {
            plain.push('\r');
            i += 1;
        } else {
            plain.push(c);
            i += 1;
        }
    }
    assert(plain@ + with_returns(chars@.skip(i as int)) == plain@);
    let parts = text::split(plain.as_slice(), '\r');
    let r = text::to_strings(&parts);
    assert(text::texts(r@) =~= lines_of_input(input@));
    r
}

/// The path that a `#load` names, or how to name one.
pub fn load_path(command_line: &str) -> (r: Result<String, String>)
    ensures
        match arguments::path_arg(command_line@) {
            Some(path) => r matches Ok(p) && p@ == path,
            None => r matches Err(m) && m@ == "Usage: #load <file>"@,
        },
{
    match arguments::parse_path_arg(command_line) {
        Some(path) => Ok(path),
        None => Err("Usage: #load <file>".to_owned()),
    }
}

/// The lines of a file that was read.
pub fn load_lines(contents: &str) -> (r: Vec<String>)
    ensures
        text::texts(r@) == text::line_seq(contents@),
{
    let chars = text::to_chars(contents);
    let lines = text::lines(chars.as_slice());
    let r = text::to_strings(&lines);
    assert(text::texts(r@) =~= text::line_seq(contents@));
    r
}

/// The text `s` as it is sent.
fn outgoing_text(lower_mode: bool, s: String) -> (r: String)
    ensures
        r@ == outgoing(lower_mode, s@),
{
    if lower_mode {
        lower::lower_program(s.as_str())
    } else {
        s
    }
}

/// A message that counts lines.
fn count_message(n: usize, what: &str) -> (r: String)
    ensures
        r@ == counted(n as nat, what@),
{
    let mut r = "Ok (".to_owned();
    number::push_decimal(&mut r, n);
    r.append(what);
    r
}

/// What a `#save` says: how many lines were saved, or what went wrong.
pub fn save_message(outcome: Result<usize, String>) -> (r: String)
    ensures
        match outcome {
            Ok(n) => r@ == counted(n as nat, " lines saved)"@),
            Err(e) => r@ == e@,
        },
{
    match outcome {
        Ok(n) => count_message(n, " lines saved)"),
        Err(e) => e,
    }
}

impl Msxterm {
    /// Executes a typed line, and says what else is to be done about it.
    pub fn execute(&mut self, line: &str) -> (r: Action)
        ensures
            final(self)@ == executed(old(self)@, line@),
            answers(old(self)@, line@, r),
            old(self)@.wf() ==> final(self)@.wf(),
    {
        match classify(line) {
            Request::Quit => Action::Quit,
            Request::Hex => Action::SendBytes(hex::hex2u8(line)),
            Request::DumpOn => Action::Notify(
                Command::DumpModeOn,
                "Output dump mode On".to_owned(),
            ),
            Request::DumpOff => Action::Notify(
                Command::DumpModeOff,
                "Output dump mode Off".to_owned(),
            ),
            Request::LowsendOn => {
                self.set_lower_mode(true);
                Action::Show("Lower Case send mode On".to_owned())
            },
            Request::LowsendOff => {
                self.set_lower_mode(false);
                Action::Show("Lower Case send mode Off".to_owned())
            },
            Request::KanjiOn => {
                self.set_kanji_mode(true);
                Action::Notify(Command::KanjiModeOn, "Kanji mode On".to_owned())
            },
            Request::KanjiOff => {
                self.set_kanji_mode(false);
                Action::Notify(Command::KanjiModeOff, "Kanji mode Off".to_owned())
            },
            Request::Emacs => Action::Edit(EditMode::Emacs),
            Request::Vi => Action::Edit(EditMode::Vi),
            Request::ClearHistory => Action::ClearHistory("History is cleared.".to_owned()),
            Request::New => {
                self.clear_basic();
                Action::Show("Program Buffer is cleared.".to_owned())
            },
            Request::Load => Action::Load(load_path(line)),
            Request::List => Action::List(self.print_basic(0, LAST_LISTED)),
            Request::Save => Action::Save(self.save_program(line)),
            Request::ReloadFrom => Action::Reload,
            Request::Line => {
                self.parse_basic(line);
                let mut sent = line.to_owned();
                sent.push('\r');
                Action::SendText(outgoing_text(self.lower_mode(), sent))
            },
        }
    }

    /// Enters the lines of a file. Gives the lines for the history and the text to
    /// send.
    pub fn load_program(&mut self, basic: &Vec<String>) -> (r: Loaded)
        ensures
            final(self)@ == after_load(old(self)@, text::texts(basic@)),
            text::texts(r.history@) == program::all_trimmed(text::texts(basic@)),
            r.outgoing@ == sent_load(old(self)@.lower_mode, text::texts(basic@)),
            r.history@.len() == basic@.len(),
            forall|i: int|
                0 <= i < basic@.len() ==> (#[trigger] r.history@[i])@ == text::trimmed(basic@[i]@),
            old(self)@.wf() ==> final(self)@.wf(),
    {
        let ghost lines = program::all_trimmed(text::texts(basic@));
        let mut history: Vec<String> = Vec::new();
        let mut program = String::new();
        let mut i: usize = 0;
        while i < basic.len()
            invariant
                i <= basic@.len(),
                lines == program::all_trimmed(text::texts(basic@)),
                self@ == (terminal::Session {
                    program: program::entered_all(old(self)@.program, lines.take(i as int)),
                    ..old(self)@
                }),
                text::texts(history@) == lines.take(i as int),
                program@ == returned(lines.take(i as int)),
                old(self)@.wf() ==> self@.wf(),
            decreases basic@.len() - i,
        {
            let chars = text::to_chars(basic[i].as_str());
            let line = text::from_chars(text::trim(chars.as_slice()));
            assert(text::texts(basic@)[i as int] == basic@[i as int]@);
            assert(lines[i as int] == line@);
            assert(lines.take(i + 1).drop_last() == lines.take(i as int));
            assert(lines.take(i + 1) == lines.take(i as int).push(line@));
            self.parse_basic(line.as_str());
            program.append(line.as_str());
            program.push('\r');
            assert(program@ =~= returned(lines.take(i + 1)));
            proof {
                text::lemma_texts_push(history@, line);
            }
            history.push(line);
            i += 1;
        }
        assert(lines.take(lines.len() as int) == lines);
        proof {
            text::law_texts(history@);
            text::law_texts(basic@);
            assert forall|i: int| 0 <= i < basic@.len() implies (#[trigger] history@[i])@
                == text::trimmed(basic@[i]@) by {
                assert(text::texts(history@)[i] == lines[i]);
            }
        }
        let outgoing = outgoing_text(self.lower_mode(), program);
        Loaded { history, outgoing }
    }

    /// Puts the program that was fetched in place of the present one, and says how
    /// many lines it has. If nothing was fetched, the program stays.
    pub fn reload(&mut self, fetched: Result<Vec<String>, String>) -> (r: String)
        ensures
            match fetched {
                Ok(lines) => {
                    let after = reloaded(old(self)@, text::texts(lines@));
                    &&& final(self)@ == after
                    &&& r@ == counted(after.program.len(), " lines loaded from MSX0)"@)
                },
                Err(e) => final(self)@ == old(self)@ && r@ == e@,
            },
            old(self)@.wf() ==> final(self)@.wf(),
    {
        match fetched {
            Ok(lines) => {
                let ghost all = text::texts(lines@);
                self.clear_basic();
                let mut i: usize = 0;
                while i < lines.len()
                    invariant
                        i <= lines@.len(),
                        all == text::texts(lines@),
                        self@ == (terminal::Session {
                            program: program::entered_all(Map::empty(), all.take(i as int)),
                            ..old(self)@
                        }),
                        self@.wf(),
                    decreases lines@.len() - i,
                {
                    assert(all[i as int] == lines@[i as int]@);
                    assert(all.take(i + 1).drop_last() == all.take(i as int));
                    self.parse_basic(lines[i].as_str());
                    i += 1;
                }
                assert(all.take(all.len() as int) == all);
                count_message(self.program_len(), " lines loaded from MSX0)")
            },
            Err(e) => e,
        }
    }
}

/// The receiving side: how the bytes that come in are shown.
#[derive(Debug)]
pub struct Receiver {
    /// Whether they are shown in hexadecimal.
    pub dump_mode: bool,
    /// Whether they are text in the kanji code.
    pub kanji_mode: bool,
}

impl Receiver {
    /// The receiver after `command`.
    pub open spec fn switched(self, command: Command) -> Receiver {
        match command {
            Command::DumpModeOn => Receiver { dump_mode: true, ..self },
            Command::DumpModeOff => Receiver { dump_mode: false, ..self },
            Command::KanjiModeOn => Receiver { kanji_mode: true, ..self },
            Command::KanjiModeOff => Receiver { kanji_mode: false, ..self },
        }
    }

    /// What is shown of `bytes`, which read as `decoded`.
    pub open spec fn rendered(self, bytes: Seq<u8>, decoded: Seq<char>) -> Seq<char> {
        if self.dump_mode {
            hex::hex_dump(bytes)
        } else {
            decoded
        }
    }

    /// A receiver with both modes off.
    pub fn new() -> (r: Receiver)
        ensures
            !r.dump_mode,
            !r.kanji_mode,
    {
        Receiver { dump_mode: false, kanji_mode: false }
    }

    /// Switches a mode.
    pub fn apply(&mut self, command: Command)
        ensures
            *final(self) == old(self).switched(command),
    {
        match command {
            Command::DumpModeOn => self.dump_mode = true,
            Command::DumpModeOff => self.dump_mode = false,
            Command::KanjiModeOn => self.kanji_mode = true,
            Command::KanjiModeOff => self.kanji_mode = false,
        }
    }

    /// What is shown of `bytes`, which read as `decoded`.
    pub fn render(&self, bytes: Vec<u8>, decoded: String) -> (r: String)
        ensures
            r@ == self.rendered(bytes@, decoded@),
    {
        if self.dump_mode {
            hex::dump_hex(bytes)
        } else {
            decoded
        }
    }
}

/// No command word hides another: a line asks for a command just in case it
/// starts with its word.
pub proof fn law_command_words_are_distinct(line: Seq<char>, request: Request)
    requires
        request != Request::Line,
    ensures
        request_of(line) == request <==> asks(line, request),
{
    reveal_strlit("#quit");
    reveal_strlit("#hex");
    reveal_strlit("#dump_on");
    reveal_strlit("#dump_off");
    reveal_strlit("#lowsend_on");
    reveal_strlit("#lowsend_off");
    reveal_strlit("#kanji_on");
    reveal_strlit("#kanji_off");
    reveal_strlit("#emacs");
    reveal_strlit("#vi");
    reveal_strlit("#clear_history");
    reveal_strlit("#new");
    reveal_strlit("#load");
    reveal_strlit("#list");
    reveal_strlit("#save");
    reveal_strlit("#reload_from");
    let other = request_of(line);
    if asks(line, request) && asks(line, other) {
        let a = command_word(request);
        let b = command_word(other);
        assert(a[1] == line[1] && b[1] == line[1]);
        assert(a[2] == line[2] && b[2] == line[2]);
        if a.len() > 3 && b.len() > 3 {
            assert(a[3] == line[3] && b[3] == line[3]);
        }
        if a.len() > 7 && b.len() > 7 {
            assert(a[7] == line[7] && b[7] == line[7]);
        }
        if a.len() > 8 && b.len() > 8 {
            assert(a[8] == line[8] && b[8] == line[8]);
        }
        if a.len() > 10 && b.len() > 10 {
            assert(a[10] == line[10] && b[10] == line[10]);
        }
    }
}

/// No line feed is left.
proof fn lemma_with_returns(s: Seq<char>)
    ensures
        !with_returns(s).contains('\n'),
    decreases s.len(),
{
    if s.len() > 0 {
        let n: int = if s[0] == '\r' && s.len() > 1 && s[1] == '\n' {
            2
        } else {
            1
        };
        let rest = with_returns(s.skip(n));
        lemma_with_returns(s.skip(n));
        let all = with_returns(s);
        assert forall|i: int| 0 <= i < all.len() implies all[i] != '\n' by {
            if i > 0 {
                assert(all[i] == rest[i - 1]);
                assert(rest.contains(rest[i - 1]));
            }
        }
    }
}

/// A line of an input holds no line ending.
pub proof fn law_input_lines_hold_no_endings(s: Seq<char>, i: int)
    requires
        0 <= i < lines_of_input(s).len(),
    ensures
        !lines_of_input(s)[i].contains('\r'),
        !lines_of_input(s)[i].contains('\n'),
{
    lemma_with_returns(s);
    text::lemma_pieces_hold(with_returns(s), '\r', i);
}

/// Two texts can be taken one by one, unless a line ending is cut in two.
proof fn lemma_with_returns_add(a: Seq<char>, b: Seq<char>)
    requires
        a.len() > 0 && a.last() == '\r' ==> b.len() == 0 || b[0] != '\n',
    ensures
        with_returns(a + b) == with_returns(a) + with_returns(b),
    decreases a.len(),
{
    if a.len() == 0 {
        assert(a + b == b);
        assert(with_returns(a) + with_returns(b) =~= with_returns(b));
    } else {
        let s = a + b;
        assert(s[0] == a[0]);
        if a[0] == '\r' && a.len() > 1 && a[1] == '\n' {
            assert(s[1] == a[1]);
            lemma_with_returns_add(a.skip(2), b);
            assert(s.skip(2) == a.skip(2) + b);
        } else {
            if a.len() > 1 {
                assert(s[1] == a[1]);
            } else if b.len() > 0 {
                assert(s[1] == b[0]);
            }
            lemma_with_returns_add(a.skip(1), b);
            assert(s.skip(1) == a.skip(1) + b);
        }
        assert(with_returns(s) =~= with_returns(a) + with_returns(b));
    }
}

/// It makes no difference which line ending stands between two lines: a carriage
/// return, a line feed, or the one followed by the other.
pub proof fn law_line_endings_are_alike(a: Seq<char>, b: Seq<char>)
    requires
        a.len() > 0 ==> a.last() != '\r',
        b.len() > 0 ==> b[0] != '\n',
    ensures
        lines_of_input(a + seq!['\r'] + b) == lines_of_input(a + seq!['\n'] + b),
        lines_of_input(a + seq!['\r'] + b) == lines_of_input(a + seq!['\r', '\n'] + b),
{
    reveal_with_fuel(with_returns, 2);
    let cr = seq!['\r'];
    let lf = seq!['\n'];
    let both = seq!['\r', '\n'];
    assert(cr.skip(1) =~= Seq::<char>::empty());
    assert(lf.skip(1) =~= Seq::<char>::empty());
    assert(both.skip(2) =~= Seq::<char>::empty());
    assert(with_returns(cr) =~= cr);
    assert(with_returns(lf) =~= cr);
    assert(with_returns(both) =~= cr);
    lemma_with_returns_add(a, cr);
    lemma_with_returns_add(a, lf);
    lemma_with_returns_add(a, both);
    lemma_with_returns_add(a + cr, b);
    lemma_with_returns_add(a + lf, b);
    lemma_with_returns_add(a + both, b);
}

/// Terminal commands other than `#new` leave the program as it is.
pub proof fn law_commands_leave_the_program(s: terminal::Session, line: Seq<char>)
    requires
        request_of(line) != Request::Line,
        request_of(line) != Request::New,
    ensures
        executed(s, line).program == s.program,
{
}

/// A mode that was switched on is off again after it was switched off, and
/// nothing else has changed.
pub proof fn law_modes_switch_back(s: terminal::Session, on: Seq<char>, off: Seq<char>)
    requires
        request_of(on) == Request::LowsendOn && request_of(off) == Request::LowsendOff
            || request_of(on) == Request::KanjiOn && request_of(off) == Request::KanjiOff,
    ensures
        executed(executed(s, on), off) == executed(s, off),
{
}

/// A text without line endings stays as it is.
proof fn lemma_without_endings(s: Seq<char>)
    requires
        !s.contains('\r'),
        !s.contains('\n'),
    ensures
        with_returns(s) == s,
    decreases s.len(),
{
    if s.len() > 0 {
        let rest = s.skip(1);
        assert(s.contains(s[0]));
        assert forall|i: int| 0 <= i < rest.len() implies rest[i] != '\r' && rest[i] != '\n' by {
            assert(s.contains(s[i + 1]));
        }
        lemma_without_endings(rest);
        assert(seq![s[0]] + rest =~= s);
    }
}

/// Nothing but line endings is taken out of an input: a text without any is one
/// line, and a text in front of a line ending is the first line, as it was.
pub proof fn law_input_is_cut_at_line_endings(a: Seq<char>, b: Seq<char>)
    requires
        !a.contains('\r'),
        !a.contains('\n'),
    ensures
        lines_of_input(a) == seq![a],
        lines_of_input(a + seq!['\n'] + b) == seq![a] + lines_of_input(b),
        lines_of_input(a + seq!['\r', '\n'] + b) == seq![a] + lines_of_input(b),
        b.len() == 0 || b[0] != '\n' ==> lines_of_input(a + seq!['\r'] + b) == seq![a]
            + lines_of_input(b),
{
    lemma_without_endings(a);
    text::lemma_pieces(a, '\r', with_returns(b));
    if a.len() > 0 {
        assert(a.contains(a.last()));
    }
    let plain = a.push('\r') + with_returns(b);
    let lf = seq!['\n'] + b;
    let both = seq!['\r', '\n'] + b;
    let cr = seq!['\r'] + b;
    lemma_with_returns_add(a, lf);
    lemma_with_returns_add(a, both);
    lemma_with_returns_add(a, cr);
    assert(a + seq!['\n'] + b =~= a + lf);
    assert(a + seq!['\r', '\n'] + b =~= a + both);
    assert(a + seq!['\r'] + b =~= a + cr);
    assert(lf.skip(1) =~= b);
    assert(both.skip(2) =~= b);
    assert(with_returns(a + lf) =~= plain);
    assert(with_returns(a + both) =~= plain);
    if b.len() == 0 || b[0] != '\n' {
        assert(cr.skip(1) =~= b);
        if b.len() > 0 {
            assert(cr[1] == b[0]);
        }
        assert(with_returns(a + cr) =~= plain);
    }
}

/// A line that asks for no terminal command is sent, numbered or not, and a
/// carriage return ends what is sent. With the lower case mode off it is the line
/// and one carriage return.
pub proof fn law_a_typed_line_is_sent(s: terminal::Session, line: Seq<char>, action: Action)
    requires
        answers(s, line, action),
        forall|request: Request| request != Request::Line ==> !(#[trigger] asks(line, request)),
    ensures
        action matches Action::SendText(t) && t@.len() > 0 && t@.last() == '\r',
        !s.lower_mode ==> (action matches Action::SendText(t) && t@ == line + seq!['\r']),
        s.lower_mode ==> (action matches Action::SendText(t) && t@ == lower::lowered_program(
            line + seq!['\r'],
        )),
{
    lemma_no_command(line);
    assert(line + seq!['\r'] =~= line.push('\r'));
    lower::law_sent_text_ends_with_a_return(line.push('\r'));
}

/// In the lower case mode, a typed line that is no remark goes in lower case but
/// for its literals, without the white space around it, and with one carriage
/// return behind it.
pub proof fn law_a_typed_line_is_lowered(s: terminal::Session, line: Seq<char>, action: Action)
    requires
        answers(s, line, action),
        forall|request: Request| request != Request::Line ==> !(#[trigger] asks(line, request)),
        s.lower_mode,
        !line.contains('\n'),
        ({
            let core = text::trimmed(line);
            ||| core.len() < 3
            ||| core[0] <= '\u{7f}' && core[0] != 'r' && core[0] != 'R'
            ||| core[1] <= '\u{7f}' && core[1] != 'e' && core[1] != 'E'
            ||| core[2] <= '\u{7f}' && core[2] != 'm' && core[2] != 'M'
        }),
    ensures
        action matches Action::SendText(t) && t@ == lower::lowered(text::trimmed(line), false)
            + seq!['\r'],
{
    lemma_no_command(line);
    let sent = line.push('\r');
    text::lemma_trimmed_drop(sent);
    assert(sent.drop_last() =~= line);
    assert forall|i: int| 0 <= i < sent.len() implies sent[i] != '\n' by {
        if i < line.len() {
            assert(line.contains(line[i]));
        }
    }
    lower::law_other_lines_are_lowered(sent);
    let low = lower::lowered(text::trimmed(line), false);
    assert(low + seq!['\r'] =~= low.push('\r'));
}

/// A line that starts with no command word asks for no command.
proof fn lemma_no_command(line: Seq<char>)
    requires
        forall|request: Request| request != Request::Line ==> !(#[trigger] asks(line, request)),
    ensures
        request_of(line) == Request::Line,
{
}

/// A command word asks for its command, whatever follows it; and a line that does
/// not start with a `#` asks for none.
pub proof fn law_command_words_ask(request: Request, rest: Seq<char>, line: Seq<char>)
    ensures
        request != Request::Line ==> request_of(command_word(request) + rest) == request,
        line.len() == 0 || line[0] != '#' ==> request_of(line) == Request::Line,
        request_of(line) != Request::Line ==> line.take(
            command_word(request_of(line)).len() as int,
        ) == command_word(request_of(line)),
{
    if request != Request::Line {
        let word = command_word(request);
        let all = word + rest;
        assert(word =~= all.subrange(0, word.len() as int));
        law_command_words_are_distinct(all, request);
    }
    let found = request_of(line);
    if found != Request::Line {
        law_command_words_are_distinct(line, found);
        lemma_words_start_with_a_hash(found);
        assert(line[0] == command_word(found)[0]);
    }
}

/// Every command word starts with a `#`.
proof fn lemma_words_start_with_a_hash(request: Request)
    requires
        request != Request::Line,
    ensures
        command_word(request).len() > 0,
        command_word(request)[0] == '#',
{
    reveal_strlit("#quit");
    reveal_strlit("#hex");
    reveal_strlit("#dump_on");
    reveal_strlit("#dump_off");
    reveal_strlit("#lowsend_on");
    reveal_strlit("#lowsend_off");
    reveal_strlit("#kanji_on");
    reveal_strlit("#kanji_off");
    reveal_strlit("#emacs");
    reveal_strlit("#vi");
    reveal_strlit("#clear_history");
    reveal_strlit("#new");
    reveal_strlit("#load");
    reveal_strlit("#list");
    reveal_strlit("#save");
    reveal_strlit("#reload_from");
}

/// What a typed line changes: the mode that it switches; the program, which
/// `#new` empties and a line for the machine enters into; and nothing else.
pub proof fn law_a_typed_line_changes(s: terminal::Session, line: Seq<char>)
    ensures
        ({
            let after = executed(s, line);
            let request = request_of(line);
            &&& after.dump_mode == s.dump_mode
            &&& after.commands == s.commands
            &&& request == Request::LowsendOn ==> after.lower_mode
            &&& request == Request::LowsendOff ==> !after.lower_mode
            &&& request != Request::LowsendOn && request != Request::LowsendOff ==> after.lower_mode
                == s.lower_mode
            &&& request == Request::KanjiOn ==> after.kanji_mode
            &&& request == Request::KanjiOff ==> !after.kanji_mode
            &&& request != Request::KanjiOn && request != Request::KanjiOff ==> after.kanji_mode
                == s.kanji_mode
            &&& request == Request::New ==> forall|n: u16| !after.program.contains_key(n)
            &&& request == Request::Line ==> after.program == program::entered(s.program, line)
        }),
{
}

/// Bytes that were dumped are sent by the command that carries the dump.
pub proof fn law_a_dump_is_sent(s: terminal::Session, bytes: Seq<u8>, action: Action)
    requires
        answers(s, "#hex "@ + hex::hex_dump(bytes), action),
    ensures
        action matches Action::SendBytes(b) && b@ == bytes,
{
    reveal_strlit("#hex ");
    reveal_strlit("#hex");
    let word = "#hex"@;
    assert("#hex "@ =~= word.push(' '));
    let rest = seq![' '] + hex::hex_dump(bytes);
    assert(word + rest =~= "#hex "@ + hex::hex_dump(bytes));
    law_command_words_ask(Request::Hex, rest, rest);
    assert(!word.contains(' '));
    hex::law_dump_reads_back(word, bytes);
}

/// A load names the file whose path stands in quotation marks behind the command.
pub proof fn law_a_load_names_its_file(
    s: terminal::Session,
    gap: Seq<char>,
    path: Seq<char>,
    tail: Seq<char>,
    action: Action,
)
    requires
        gap.len() > 0,
        arguments::all_white(gap),
        !path.contains('"'),
        answers(s, "#load"@ + gap + (seq!['"'] + path + seq!['"']) + tail, action),
    ensures
        path.len() > 0 ==> (action matches Action::Load(Ok(p)) && p@ == path),
        path.len() == 0 ==> action matches Action::Load(Err(_)),
{
    reveal_strlit("#load");
    let word = "#load"@;
    let arg = seq!['"'] + path + seq!['"'];
    let rest = gap + arg + tail;
    assert(word + rest =~= word + gap + arg + tail);
    law_command_words_ask(Request::Load, rest, rest);
    arguments::law_quoted_path_ends_at_the_mark(word, gap, path, tail);
}

/// A `#list` shows every line of the program up to 65530, whatever follows the
/// word.
pub proof fn law_a_list_shows_the_program(
    s: terminal::Session,
    rest: Seq<char>,
    action: Action,
    n: u16,
)
    requires
        answers(s, "#list"@ + rest, action),
        s.program.contains_key(n),
        n <= 65530,
    ensures
        action matches Action::List(listing) && exists|i: int|
            0 <= i < listing.history@.len() && (#[trigger] listing.history@[i])@
                == program::line_text(s.program, n) && listing.display@[i]@ == program::line_shown(
                s.program,
                n,
            ),
{
    law_command_words_ask(Request::List, rest, rest);
    match action {
        Action::List(listing) => {
            terminal::law_listing(s.program, 0, LAST_LISTED, listing);
        },
        _ => {},
    }
}

/// A `#save` writes the program so that it can be loaded again.
pub proof fn law_a_save_can_be_loaded(s: terminal::Session, rest: Seq<char>, action: Action)
    requires
        answers(s, "#save"@ + rest, action),
        s.wf(),
        program::instructions_single_line(s.program),
        arguments::path_arg("#save"@ + rest) is Some,
        exists|n: u16| s.program.contains_key(n),
    ensures
        action matches Action::Save(Ok(request)) && program::loaded(
            Map::empty(),
            request.contents@,
        ) == program::without_blanks(s.program),
{
    law_command_words_ask(Request::Save, rest, rest);
    match action {
        Action::Save(r) => {
            terminal::law_saving(s.program, "#save"@ + rest, r);
        },
        _ => {},
    }
}

/// The lines of a loaded file are sent in turn, each with a carriage return
/// behind it; with the lower case mode off they go as they are.
pub proof fn law_loaded_lines_are_sent_in_turn(lines: Seq<Seq<char>>, line: Seq<char>)
    ensures
        returned(seq![]) == Seq::<char>::empty(),
        returned(lines.push(line)) == returned(lines) + line + seq!['\r'],
        outgoing(false, returned(lines)) == returned(lines),
        outgoing(true, returned(lines)) == lower::lowered_program(returned(lines)),
{
    assert(lines.push(line).drop_last() == lines);
    assert(returned(lines.push(line)) =~= returned(lines) + line + seq!['\r']);
}

/// A receiver shows bytes in hexadecimal or as they read, by the last command on
/// that, whatever commands on the kanji code come between.
pub proof fn law_modes_of_the_receiver(
    r: Receiver,
    kanji: Command,
    bytes: Seq<u8>,
    decoded: Seq<char>,
)
    requires
        kanji == Command::KanjiModeOn || kanji == Command::KanjiModeOff,
    ensures
        r.switched(Command::DumpModeOn).switched(kanji).rendered(bytes, decoded) == hex::hex_dump(
            bytes,
        ),
        r.switched(Command::DumpModeOff).switched(kanji).rendered(bytes, decoded) == decoded,
        r.switched(kanji).dump_mode == r.dump_mode,
        r.switched(kanji).kanji_mode == (kanji == Command::KanjiModeOn),
        r.switched(Command::DumpModeOn).kanji_mode == r.kanji_mode,
        r.switched(Command::DumpModeOff).kanji_mode == r.kanji_mode,
{
}

/// Two names stand for key bindings, and no other.
pub proof fn law_names_of_key_bindings(name: Seq<char>)
    ensures
        mode_named(name) == Some(EditMode::Emacs) <==> name == seq!['e', 'm', 'a', 'c', 's'],
        mode_named(name) == Some(EditMode::Vi) <==> name == seq!['v', 'i'],
{
    reveal_strlit("emacs");
    reveal_strlit("vi");
    assert("emacs"@ =~= seq!['e', 'm', 'a', 'c', 's']);
    assert("vi"@ =~= seq!['v', 'i']);
}

/// A message that counts lines holds the number in decimal.
pub proof fn law_counting_message(n: nat, what: Seq<char>)
    ensures
        counted(n, what) == seq!['O', 'k', ' ', '('] + number::decimal(n) + what,
{
    reveal_strlit("Ok (");
    assert("Ok ("@ =~= seq!['O', 'k', ' ', '(']);
}

/// Fetched lines take the place of the program: they are entered in turn, nothing
/// of the program before is left, and nothing but the program changes.
pub proof fn law_fetched_lines_replace_the_program(
    s: terminal::Session,
    t: terminal::Session,
    lines: Seq<Seq<char>>,
    line: Seq<char>,
)
    ensures
        reloaded(s, lines).program == reloaded(t, lines).program,
        forall|n: u16| !(#[trigger] reloaded(s, seq![]).program.contains_key(n)),
        reloaded(s, lines.push(line)).program == program::entered(
            reloaded(s, lines).program,
            line,
        ),
        reloaded(s, lines).dump_mode == s.dump_mode,
        reloaded(s, lines).lower_mode == s.lower_mode,
        reloaded(s, lines).kanji_mode == s.kanji_mode,
        reloaded(s, lines).commands == s.commands,
{
    assert(lines.push(line).drop_last() == lines);
}

/// A program that the machine lists takes the place of the program, but for blank
/// lines.
pub proof fn law_a_listed_program_is_reloaded(s: terminal::Session, p: program::Program)
    requires
        program::instructions_trimmed(p),
    ensures
        ({
            let listing = program::all_numbers(p).map_values(
                |n: u16| program::line_text(p, n) + seq!['\r', '\n'],
            );
            let answer = listing.push("Ok"@ + seq!['\r', '\n']);
            reloaded(s, fetch::captured_all(seq![], answer)).program == program::without_blanks(p)
        }),
{
    fetch::law_listed_program_is_fetched(p);
}

/// The lines of a file are entered in turn, without the white space around them,
/// and nothing but the program changes. With the lower case mode off, each goes
/// with one carriage return behind it; with it on, the same text goes in lower
/// case.
pub proof fn law_file_lines_are_entered_in_turn(
    s: terminal::Session,
    basic: Seq<Seq<char>>,
    line: Seq<char>,
)
    ensures
        after_load(s, seq![]) == s,
        after_load(s, basic.push(line)).program == program::entered(
            after_load(s, basic).program,
            text::trimmed(line),
        ),
        after_load(s, basic).dump_mode == s.dump_mode,
        after_load(s, basic).lower_mode == s.lower_mode,
        after_load(s, basic).kanji_mode == s.kanji_mode,
        after_load(s, basic).commands == s.commands,
        sent_load(false, seq![]) == Seq::<char>::empty(),
        sent_load(false, basic.push(line)) == sent_load(false, basic) + text::trimmed(line)
            + seq!['\r'],
        sent_load(true, basic) == lower::lowered_program(sent_load(false, basic)),
{
    let lines = program::all_trimmed(basic);
    let nothing = Seq::<Seq<char>>::empty();
    assert(program::all_trimmed(nothing) =~= nothing);
    assert(program::all_trimmed(basic.push(line)) =~= lines.push(text::trimmed(line)));
    assert(lines.push(text::trimmed(line)).drop_last() =~= lines);
    law_loaded_lines_are_sent_in_turn(lines, text::trimmed(line));
    assert(after_load(s, nothing).program == s.program);
}

/// The file of a saved program brings its lines into a session, but for blank
/// ones.
pub proof fn law_a_saved_file_is_entered(s: terminal::Session, p: program::Program)
    requires
        program::instructions_trimmed(p),
        program::instructions_single_line(p),
    ensures
        after_load(s, text::line_seq(program::saved_text(p))).program == s.program.remove_keys(
            p.dom(),
        ).union_prefer_right(program::without_blanks(p)),
{
    program::law_saved_program_loads(p, s.program);
}

/// Each command is answered in the same way whatever follows its word.
pub proof fn law_commands_are_answered(
    s: terminal::Session,
    request: Request,
    rest: Seq<char>,
    action: Action,
)
    requires
        request != Request::Line,
        answers(s, command_word(request) + rest, action),
    ensures
        request == Request::Quit <==> action is Quit,
        request == Request::ReloadFrom <==> action is Reload,
        request == Request::Hex ==> (action matches Action::SendBytes(b) && b@ == hex::hex_arg(
            command_word(request) + rest,
        )),
        request == Request::DumpOn ==> (action matches Action::Notify(c, m) && c
            == Command::DumpModeOn && m@ == "Output dump mode On"@),
        request == Request::DumpOff ==> (action matches Action::Notify(c, m) && c
            == Command::DumpModeOff && m@ == "Output dump mode Off"@),
        request == Request::KanjiOn ==> (action matches Action::Notify(c, m) && c
            == Command::KanjiModeOn && m@ == "Kanji mode On"@),
        request == Request::KanjiOff ==> (action matches Action::Notify(c, m) && c
            == Command::KanjiModeOff && m@ == "Kanji mode Off"@),
        request == Request::LowsendOn ==> (action matches Action::Show(m) && m@
            == "Lower Case send mode On"@),
        request == Request::LowsendOff ==> (action matches Action::Show(m) && m@
            == "Lower Case send mode Off"@),
        request == Request::New ==> (action matches Action::Show(m) && m@
            == "Program Buffer is cleared."@),
        request == Request::ClearHistory ==> (action matches Action::ClearHistory(m) && m@
            == "History is cleared."@),
        request == Request::Emacs ==> action == Action::Edit(EditMode::Emacs),
        request == Request::Vi ==> action == Action::Edit(EditMode::Vi),
        request == Request::Load ==> (action matches Action::Load(r) && r is Ok
            == arguments::path_arg(command_word(request) + rest) is Some && (r matches Ok(p)
            ==> arguments::path_arg(command_word(request) + rest) == Some(p@)) && (r matches Err(m)
            ==> m@ == "Usage: #load <file>"@)),
        request == Request::List ==> (action matches Action::List(listing) && terminal::lists(
            s.program,
            0,
            65530,
            listing,
        )),
        request == Request::Save ==> (action matches Action::Save(r) && terminal::saves(
            s.program,
            command_word(request) + rest,
            r,
        )),
{
    law_command_words_ask(request, rest, rest);
}

} // verus!
