use msxterm::commands::{
    classify, edit_mode, input_lines, load_lines, load_path, save_message, Action, Command, EditMode,
    Receiver, Request, LAST_LISTED, U_BREAK, U_PAUSE,
};
use msxterm::fetch::{list_request, send_failure, Capture, Verdict};
use msxterm::terminal::Msxterm;

fn with_lines(lines: &[&str]) -> Msxterm {
    let mut mt = Msxterm::new();
    for line in lines {
        mt.parse_basic(line);
    }
    mt
}

fn history(mt: &mut Msxterm) -> Vec<String> {
    mt.print_basic(0, 65535).history
}

#[test]
fn lines_are_set_and_taken_away() {
    let mut mt = with_lines(&["10 A", "20  B  ", "+30 C", "40 "]);
    assert_eq!(history(&mut mt), vec!["10 A", "20 B", "30 C", "40 "]);
    mt.parse_basic("20");
    mt.parse_basic("50");
    assert_eq!(history(&mut mt), vec!["10 A", "30 C", "40 "]);
    for line in ["", "PRINT 1", " 10 X", "65536 X", "-1 X", "10\tX", "#list"] {
        mt.parse_basic(line);
    }
    assert_eq!(history(&mut mt), vec!["10 A", "30 C", "40 "]);
    assert_eq!(mt.program_len(), 3);
    mt.clear_basic();
    assert_eq!(mt.program_len(), 0);
}

#[test]
fn the_later_line_counts_and_order_does_not() {
    let mut a = with_lines(&["10 A", "20 B", "10 C"]);
    let mut b = with_lines(&["20 B", "10 C"]);
    assert_eq!(history(&mut a), history(&mut b));
}

#[test]
fn listings_are_aligned_and_bounded() {
    let mut mt = with_lines(&["1000 A", "5 B", "70 C"]);
    let listing = mt.print_basic(5, 70);
    assert_eq!(listing.history, vec!["5 B", "70 C"]);
    assert_eq!(listing.display, vec!["   \x1b[36m5\x1b[0m B", "  \x1b[36m70\x1b[0m C"]);
    assert_eq!(mt.print_basic(71, 71).history, Vec::<String>::new());
    assert_eq!(mt.print_basic(1000, 1000).display, vec!["\x1b[36m1000\x1b[0m A"]);
    let mut empty = Msxterm::new();
    assert_eq!(empty.print_basic(2, 1).display, Vec::<String>::new());
}

#[test]
fn a_listed_line_restores_the_line() {
    let mut mt = with_lines(&["10 A B", "20 "]);
    let listed = history(&mut mt);
    let mut again = Msxterm::new();
    for line in &listed {
        again.parse_basic(line);
    }
    assert_eq!(history(&mut again), listed);
}

#[test]
fn a_saved_program_loads() {
    let mut mt = with_lines(&["65535 END", "10 PRINT \"A\"", "20 GOTO 10"]);
    let request = mt.save_program("#save \"my file.bas\"").unwrap();
    assert_eq!(request.path, "my file.bas");
    assert_eq!(request.contents, "10 PRINT \"A\"\n20 GOTO 10\n65535 END\n");
    assert_eq!(request.lines, 3);
    assert_eq!(request.outcome(Ok(())), Ok(3));
    let mut again = with_lines(&["10 OLD", "30 STAYS"]);
    let loaded = again.load_program(&load_lines(&request.contents));
    assert_eq!(loaded.history, history(&mut mt));
    assert_eq!(loaded.outgoing, "10 PRINT \"A\"\r20 GOTO 10\r65535 END\r");
    assert_eq!(
        history(&mut again),
        vec!["10 PRINT \"A\"", "20 GOTO 10", "30 STAYS", "65535 END"]
    );
}

#[test]
fn an_empty_instruction_does_not_survive_a_file() {
    let mt = with_lines(&["10 "]);
    let request = mt.save_program("#save x").unwrap();
    assert_eq!(request.contents, "10 \n");
    let mut again = Msxterm::new();
    again.load_program(&load_lines(&request.contents));
    assert_eq!(again.program_len(), 0);
}

#[test]
fn refused_saves_say_why() {
    let mut mt = Msxterm::new();
    assert_eq!(mt.save_program("#save").unwrap_err(), "Usage: #save <file>");
    assert_eq!(
        mt.save_program("#save x").unwrap_err(),
        "Program buffer is empty. Nothing saved. (use #reload_from to fetch the program from MSX0)"
    );
    mt.parse_basic("1 A");
    let request = mt.save_program("#save x/y").unwrap();
    assert_eq!(request.outcome(Err("denied".to_string())), Err("x/y: denied".to_string()));
    assert_eq!(save_message(Ok(12)), "Ok (12 lines saved)");
    assert_eq!(save_message(Err("x/y: denied".to_string())), "x/y: denied");
}

#[test]
fn loads_name_a_path() {
    assert_eq!(load_path("#load").unwrap_err(), "Usage: #load <file>");
    assert_eq!(load_path("#load a b").unwrap(), "a");
}

#[test]
fn loaded_programs_follow_the_lower_mode() {
    let mut mt = Msxterm::new();
    mt.execute("#lowsend_on");
    let loaded = mt.load_program(&load_lines("  10 PRINT \"A\" \n20 END"));
    assert_eq!(loaded.outgoing, "10 print \"A\"\r20 end\r");
    assert_eq!(loaded.history, vec!["10 PRINT \"A\"", "20 END"]);
    assert_eq!(history(&mut mt), vec!["10 PRINT \"A\"", "20 END"]);
}

#[test]
fn words_ask_for_commands() {
    for (line, request) in [
        ("#quit", Request::Quit),
        ("#hex 41", Request::Hex),
        ("#dump_on", Request::DumpOn),
        ("#dump_off", Request::DumpOff),
        ("#lowsend_on", Request::LowsendOn),
        ("#lowsend_off", Request::LowsendOff),
        ("#kanji_on", Request::KanjiOn),
        ("#kanji_off", Request::KanjiOff),
        ("#emacs", Request::Emacs),
        ("#vi", Request::Vi),
        ("#clear_history", Request::ClearHistory),
        ("#newest", Request::New),
        ("#load a", Request::Load),
        ("#list 10", Request::List),
        ("#save a", Request::Save),
        ("#reload_from", Request::ReloadFrom),
        ("#HEX 41", Request::Line),
        (" #quit", Request::Line),
        ("#dump", Request::Line),
        ("", Request::Line),
    ] {
        assert_eq!(classify(line), request, "{:?}", line);
    }
}

#[test]
fn commands_are_executed() {
    let mut mt = Msxterm::new();
    assert!(matches!(mt.execute("#quit"), Action::Quit));
    assert!(matches!(mt.execute("#hex 41 0d"), Action::SendBytes(b) if b == vec![0x41, 0x0d]));
    assert!(matches!(mt.execute("#dump_on"),
        Action::Notify(Command::DumpModeOn, m) if m == "Output dump mode On"));
    assert!(matches!(mt.execute("#dump_off"),
        Action::Notify(Command::DumpModeOff, m) if m == "Output dump mode Off"));
    assert!(matches!(mt.execute("#kanji_on"),
        Action::Notify(Command::KanjiModeOn, m) if m == "Kanji mode On"));
    assert!(mt.kanji_mode());
    assert!(matches!(mt.execute("#kanji_off"),
        Action::Notify(Command::KanjiModeOff, m) if m == "Kanji mode Off"));
    assert!(!mt.kanji_mode());
    assert!(matches!(mt.execute("#emacs"), Action::Edit(EditMode::Emacs)));
    assert!(matches!(mt.execute("#vi"), Action::Edit(EditMode::Vi)));
    assert!(matches!(mt.execute("#clear_history"),
        Action::ClearHistory(m) if m == "History is cleared."));
    assert!(matches!(mt.execute("#load a.bas"), Action::Load(Ok(p)) if p == "a.bas"));
    assert!(matches!(mt.execute("#load"), Action::Load(Err(m)) if m == "Usage: #load <file>"));
    assert!(matches!(mt.execute("#save"), Action::Save(Err(m)) if m == "Usage: #save <file>"));
    assert!(matches!(mt.execute("#reload_from"), Action::Reload));
    assert!(matches!(mt.execute("10 Print"), Action::SendText(t) if t == "10 Print\r"));
    assert!(matches!(mt.execute("#lowsend_on"),
        Action::Show(m) if m == "Lower Case send mode On"));
    assert!(mt.lower_mode());
    assert!(matches!(mt.execute("20 Print"), Action::SendText(t) if t == "20 print\r"));
    assert!(matches!(mt.execute("#lowsend_off"),
        Action::Show(m) if m == "Lower Case send mode Off"));
    assert!(!mt.lower_mode());
    mt.execute("65530 A");
    mt.execute("65531 B");
    assert_eq!(LAST_LISTED, 65530);
    assert!(matches!(mt.execute("#list 10"), Action::List(l)
        if l.history == vec!["10 Print", "20 Print", "65530 A"]));
    assert!(matches!(mt.execute("#save x"), Action::Save(Ok(r)) if r.lines == 4));
    assert!(matches!(mt.execute("#new"), Action::Show(m) if m == "Program Buffer is cleared."));
    assert_eq!(mt.program_len(), 0);
}

#[test]
fn an_input_holds_lines() {
    assert_eq!(input_lines("a"), vec!["a"]);
    assert_eq!(input_lines(""), vec![""]);
    for ending in ["\r", "\n", "\r\n"] {
        assert_eq!(input_lines(&format!("a{}b", ending)), vec!["a", "b"]);
    }
    assert_eq!(input_lines("\r\r\n\n"), vec!["", "", "", ""]);
    assert_eq!(input_lines("\n\r"), vec!["", "", ""]);
}

#[test]
fn editors_have_names() {
    assert_eq!(edit_mode("emacs"), Some(EditMode::Emacs));
    assert_eq!(edit_mode("vi"), Some(EditMode::Vi));
    assert_eq!(edit_mode("Vi"), None);
    assert_eq!((U_BREAK, U_PAUSE), (0x03, 0x7b));
}

#[test]
fn received_bytes_are_shown() {
    let mut rx = Receiver::new();
    assert_eq!(rx.render(vec![0x41], "A".to_string()), "A");
    rx.apply(Command::DumpModeOn);
    rx.apply(Command::KanjiModeOn);
    assert_eq!(rx.render(vec![0x41], "A".to_string()), "41 ");
    assert!(rx.kanji_mode);
    rx.apply(Command::DumpModeOff);
    rx.apply(Command::KanjiModeOff);
    assert_eq!(rx.render(vec![0x41], "A".to_string()), "A");
    assert!(!rx.kanji_mode);
}

#[test]
fn a_listing_is_fetched() {
    let mut capture = Capture::begin(3);
    assert_eq!(list_request(), b"list\r".to_vec());
    for text in ["list\r\n", "10 PRINT 1\r\n", " 20 END \r\n", "", "Break\r\n"] {
        capture.receive(text, 7);
    }
    assert!(!capture.done);
    assert_eq!(capture.last_rx, 7);
    capture.receive("Ok\r\n", 9);
    assert!(capture.done);
    assert_eq!(capture.last_rx, 9);
    assert_eq!(capture.verdict(0, 9), Verdict::Complete);
    let fetched = capture.finish(false);
    let mut mt = with_lines(&["5 OLD"]);
    assert_eq!(mt.reload(fetched), "Ok (2 lines loaded from MSX0)");
    assert_eq!(history(&mut mt), vec!["10 PRINT 1", "20 END"]);
}

#[test]
fn a_fetch_waits_and_gives_up() {
    let second = 1_000_000_000u128;
    let mut capture = Capture::begin(0);
    assert_eq!(capture.verdict(0, 5 * second), Verdict::Wait);
    assert_eq!(capture.verdict(0, 5 * second + 1), Verdict::TimedOut);
    assert_eq!(capture.verdict(9 * second, 0), Verdict::Wait);
    capture.receive("10 A", 4 * second);
    assert_eq!(capture.verdict(0, 5 * second), Verdict::Wait);
    assert_eq!(capture.verdict(0, 5 * second + 1), Verdict::Complete);
    let silent = Capture::begin(0).finish(true);
    let mut mt = with_lines(&["5 OLD"]);
    assert_eq!(
        mt.reload(silent),
        "No response from MSX0 (timeout). Program buffer is unchanged."
    );
    assert_eq!(history(&mut mt), vec!["5 OLD"]);
    assert_eq!(send_failure("gone"), "Failed to write to server: gone");
}
