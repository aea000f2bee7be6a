use thos::shell::{Cmd, Input, Settings, Start, Stream, Train, answer, ask, fed_from, handle_command, handle_train, json_escape, json_extract_text, log_fields, most_recent_run, parse_args, read_input, read_multiline, run_state, set_usize, translate};

fn c(s: &str) -> Vec<char> {
    s.chars().collect()
}

fn s(v: &[char]) -> String {
    v.iter().collect()
}

#[test]
fn escaping_covers_the_special_characters() {
    assert_eq!(s(&json_escape(&c("a\"b\\c\nd\re\tf\u{1}g"))), "a\\\"b\\\\c\\nd\\re\\tfg");
    assert_eq!(s(&json_escape(&c("\u{20ac}"))), "\u{20ac}");
}

#[test]
fn answers_read_back() {
    for t in ["", "hello", "a\"b\\c\nd\re\tf", "\u{fc}ber \\n \"quoted\""] {
        let line = format!("{{\"text\": \"{}\"}}", s(&json_escape(&c(t))));
        assert_eq!(json_extract_text(&c(&line)).map(|v| s(&v)), Some(t.to_string()));
    }
}

#[test]
fn broken_answers_give_nothing() {
    assert!(json_extract_text(&c("{\"txt\": \"a\"}")).is_none());
    assert!(json_extract_text(&c("{\"text\": \"open")).is_none());
    assert!(json_extract_text(&c("{\"text\": \"end\\")).is_none());
    assert_eq!(json_extract_text(&c("{\"text\": \"\\x\"")).map(|v| s(&v)), Some("x".to_string()));
}

#[test]
fn translations_are_asked_for_only_where_needed() {
    let r = translate(&c("de"), &c("en"), &c("Guten \"Tag\""));
    assert_eq!(
        r.map(|v| s(&v)),
        Some("{\"from\": \"de\", \"to\": \"en\", \"text\": \"Guten \\\"Tag\\\"\"}".to_string())
    );
    assert!(translate(&c("en"), &c("en"), &c("x")).is_none());
    assert!(translate(&c("de"), &c("en"), &c(" \n\u{a0}")).is_none());
}

fn run(cmd: &str, set: &mut Settings, ctx: &mut Vec<char>) -> Cmd {
    handle_command(&c(cmd), set, ctx, 300)
}

#[test]
fn commands_change_their_settings() {
    let mut set = Settings::new(7);
    let mut ctx = c("before");
    assert_eq!((set.top_k, set.max_tokens, set.seed, set.ctx_bytes), (40, 400, 7, 4096));
    assert!(matches!(run("topk 300", &mut set, &mut ctx), Cmd::TopK(Some(300))));
    assert_eq!(set.top_k, 300);
    assert!(matches!(run("top-k 301", &mut set, &mut ctx), Cmd::TopK(None)));
    assert!(matches!(run("topk 0", &mut set, &mut ctx), Cmd::TopK(None)));
    assert!(matches!(run("topk x", &mut set, &mut ctx), Cmd::TopK(None)));
    assert_eq!(set.top_k, 300);
    assert!(matches!(run("max +8192", &mut set, &mut ctx), Cmd::Tokens(Some(8192))));
    assert!(matches!(run("tokens 8193", &mut set, &mut ctx), Cmd::Tokens(None)));
    assert_eq!(set.max_tokens, 8192);
    assert!(matches!(run("seed 18446744073709551615", &mut set, &mut ctx), Cmd::Seed(Some(u64::MAX))));
    assert!(matches!(run("seed 18446744073709551616", &mut set, &mut ctx), Cmd::Seed(None)));
    assert_eq!(set.seed, u64::MAX);
    assert!(matches!(run("temp 0.5", &mut set, &mut ctx), Cmd::Temp(a) if s(&a) == "0.5"));
    assert!(matches!(run("reset", &mut set, &mut ctx), Cmd::Reset));
    assert!(ctx.is_empty());
}

#[test]
fn stop_texts_are_unquoted() {
    let mut set = Settings::new(0);
    let mut ctx = Vec::new();
    assert!(matches!(run("stops \"end\\nhere\"", &mut set, &mut ctx), Cmd::StopsSet));
    assert_eq!(set.stops.iter().map(|v| s(v)).collect::<Vec<_>>(), vec!["end\nhere"]);
    assert!(matches!(run("stops", &mut set, &mut ctx), Cmd::ShowStops));
    assert!(matches!(run("stops two words ", &mut set, &mut ctx), Cmd::StopsSet));
    assert_eq!(s(&set.stops[0]), "two words");
    assert!(matches!(run("stops none", &mut set, &mut ctx), Cmd::StopsCleared));
    assert!(set.stops.is_empty());
}

#[test]
fn languages_switch_on_and_off() {
    let mut set = Settings::new(0);
    let mut ctx = Vec::new();
    assert!(matches!(run("lang", &mut set, &mut ctx), Cmd::ShowLang));
    assert!(matches!(run("lang de", &mut set, &mut ctx), Cmd::LangSet));
    assert_eq!(set.lang.as_ref().map(|v| s(v)), Some("de".to_string()));
    assert!(matches!(run("lang en", &mut set, &mut ctx), Cmd::LangOff));
    assert!(set.lang.is_none());
}

#[test]
fn other_commands_are_told_apart() {
    let mut set = Settings::new(0);
    let mut ctx = Vec::new();
    assert!(matches!(run("help", &mut set, &mut ctx), Cmd::Help));
    assert!(matches!(run(" ? ", &mut set, &mut ctx), Cmd::Help));
    assert!(matches!(run("info", &mut set, &mut ctx), Cmd::Params));
    assert!(matches!(run("multi", &mut set, &mut ctx), Cmd::MultiLine));
    assert!(matches!(run("save", &mut set, &mut ctx), Cmd::Save(p) if s(&p) == "thos-shell.transcript.txt"));
    assert!(matches!(run("save a.txt", &mut set, &mut ctx), Cmd::Save(p) if s(&p) == "a.txt"));
    assert!(matches!(run("reload", &mut set, &mut ctx), Cmd::Reload));
    assert!(matches!(run("train start big", &mut set, &mut ctx), Cmd::Train(a, Some(b)) if s(&a) == "start" && s(&b) == "big"));
    assert!(matches!(run("train", &mut set, &mut ctx), Cmd::Train(a, None) if a.is_empty()));
    assert!(matches!(run("q", &mut set, &mut ctx), Cmd::Quit));
    assert!(matches!(run("nope", &mut set, &mut ctx), Cmd::Unknown(n) if s(&n) == "nope"));
    assert!(matches!(run("", &mut set, &mut ctx), Cmd::Unknown(n) if n.is_empty()));
}

#[test]
fn numbers_out_of_range_leave_the_slot() {
    let mut v = 5usize;
    assert_eq!(set_usize(&mut v, &c("9"), 1, 8), None);
    assert_eq!(v, 5);
    assert_eq!(set_usize(&mut v, &c("8"), 1, 8), Some(8));
    assert_eq!(v, 8);
}

#[test]
fn input_lines_are_told_apart() {
    assert!(matches!(read_input(&c("  \t")), Input::Empty));
    assert!(matches!(read_input(&c(" /help me ")), Input::Command(x) if s(&x) == "help me"));
    assert!(matches!(read_input(&c("hello /x")), Input::Text));
}

#[test]
fn multi_line_text_ends_with_a_dot() {
    let mut buf = Vec::new();
    assert!(!read_multiline(&mut buf, &c("one ")));
    assert!(!read_multiline(&mut buf, &c("")));
    assert!(read_multiline(&mut buf, &c(" . ")));
    assert_eq!(s(&buf), "one \n\n");
}

#[test]
fn context_grows_line_by_line() {
    let mut ctx = Vec::new();
    ask(&mut ctx, &c("hi"));
    assert_eq!(s(&ctx), "hi\n");
    assert_eq!(s(&answer(&mut ctx, &c("there \n "))), "there");
    assert_eq!(s(&ctx), "hi\nthere\n");
    ctx.push('x');
    ask(&mut ctx, &c("more\n"));
    assert_eq!(s(&ctx), "hi\nthere\nx\nmore\n");
    let mut empty = Vec::new();
    ask(&mut empty, &[]);
    assert_eq!(s(&empty), "\n");
}

#[test]
fn context_is_cut_between_characters() {
    let b = "a\u{20ac}b\n".as_bytes();
    assert_eq!(b.len(), 6);
    assert_eq!(fed_from(b, 10), 0);
    assert_eq!(fed_from(b, 5), 1);
    assert_eq!(fed_from(b, 4), 4);
    assert_eq!(fed_from(b, 2), 4);
    assert_eq!(fed_from(b, 0), 0);
}

#[test]
fn text_streams_in_whole_characters() {
    let mut st = Stream::new();
    assert_eq!(s(&st.feed(&[b'a', 0xE2])), "a");
    assert_eq!(s(&st.feed(&[0x82])), "");
    assert_eq!(s(&st.feed(&[0xAC, b'b'])), "\u{20ac}b");
    assert_eq!(s(&st.said), "a\u{20ac}b");
    assert!(st.pending.is_empty());
    assert!(st.stopped(&vec![c(""), c("\u{20ac}b")]));
    assert!(!st.stopped(&vec![c(""), c("a")]));
    assert!(st.finish().is_empty());
}

#[test]
fn bytes_that_never_fit_are_shown_in_the_end() {
    let mut st = Stream::new();
    assert_eq!(s(&st.feed(&[0xFF, b'x'])), "");
    assert_eq!(s(&st.finish()), "\u{fffd}x");
    assert_eq!(s(&st.said), "\u{fffd}x");
    assert!(st.pending.is_empty());
}

#[test]
fn training_words_become_steps() {
    let d = c("ml/train");
    assert!(matches!(handle_train(&c(""), &None, &d, &None), Train::Usage));
    assert!(matches!(handle_train(&c("start"), &None, &d, &None), Train::Start(None)));
    match handle_train(&c("start"), &Some(c("big")), &d, &None) {
        Train::Start(Some((cfg, w))) => {
            assert_eq!(s(&cfg), "ml/train/config/big.toml");
            assert_eq!(s(&w), "big.tlm");
        }
        _ => panic!("start"),
    }
    match handle_train(&c("staged"), &Some(c("8")), &d, &None) {
        Train::Staged(p, Some(h)) => {
            assert_eq!(s(&p), "ml/train/staged.sh");
            assert_eq!(s(&h), "8");
        }
        _ => panic!("staged"),
    }
    for w in ["stop", "pause", "resume"] {
        match handle_train(&c(w), &None, &d, &Some(c("last"))) {
            Train::Control(x, Some(cfg)) => {
                assert_eq!(s(&x), w);
                assert_eq!(s(&cfg), "ml/train/config/last.toml");
            }
            _ => panic!("control"),
        }
    }
    assert!(matches!(handle_train(&c("stop"), &None, &d, &None), Train::Control(_, None)));
    assert!(matches!(handle_train(&c("status"), &None, &d, &None), Train::Status));
    assert!(matches!(handle_train(&c("x"), &None, &d, &None), Train::Unknown(_)));
}

#[test]
fn newest_run_is_found() {
    assert_eq!(most_recent_run(&vec![]), None);
    assert_eq!(most_recent_run(&vec![3, 9, 9, 1]), Some(1));
}

#[test]
fn run_states_are_named() {
    assert_eq!(run_state(&c("{\"pause\": true, \"stop\": true}")), "PAUSED");
    assert_eq!(run_state(&c("{\"stop\": true}")), "STOP REQUESTED");
    assert_eq!(run_state(&c("")), "running");
}

#[test]
fn log_lines_need_five_fields() {
    let f = log_fields(&c("10,2.5,2.6,0.001,900")).unwrap();
    assert_eq!(f.iter().map(|v| s(v)).collect::<Vec<_>>(), vec!["10", "2.5", "2.6", "0.001", "900"]);
    assert!(log_fields(&c("1,2,3,4")).is_none());
    assert!(log_fields(&c("1,2,3,4,5,6")).is_none());
}

#[test]
fn command_lines_are_read() {
    let args = |v: &[&str]| v.iter().map(|x| c(x)).collect::<Vec<_>>();
    match parse_args(&args(&["-m", "w.tlm", "--system", "be kind", "-l", "de"])) {
        Start::Run(a) => {
            assert_eq!(s(&a.weights), "w.tlm");
            assert_eq!(s(&a.system), "be kind");
            assert_eq!(a.lang.map(|l| s(&l)), Some("de".to_string()));
        }
        _ => panic!("run"),
    }
    match parse_args(&args(&["--lang", "en", "--weights"])) {
        Start::Run(a) => {
            assert!(a.lang.is_none());
            assert!(a.weights.is_empty());
        }
        _ => panic!("run"),
    }
    assert!(matches!(parse_args(&args(&["-h", "x"])), Start::Usage));
    assert!(matches!(parse_args(&args(&["x"])), Start::Unknown(w) if s(&w) == "x"));
}
