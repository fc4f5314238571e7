use launcher::input::{completion_text, InputState, Key};
use launcher::launch::{is_textual, names_text_format, run_command, LaunchError};
use launcher::result::LauncherResult;

fn typed(s: &str) -> InputState {
    let mut st = InputState::new("Query>");
    let mut idx = None;
    for c in s.chars() {
        assert_eq!(st.handle_key(Key::Char(c), &mut idx), Some(false));
    }
    st
}

#[test]
fn typing_and_editing() {
    let mut st = typed("abc");
    let mut idx = None;
    assert_eq!(st.get_query(), "abc");
    assert_eq!(st.cursor_index, 3);
    st.handle_key(Key::Left, &mut idx);
    st.handle_key(Key::Char('x'), &mut idx);
    assert_eq!(st.get_query(), "abxc");
    st.handle_key(Key::Backspace, &mut idx);
    assert_eq!(st.get_query(), "abc");
    assert_eq!(st.cursor_index, 2);
    st.handle_key(Key::Right, &mut idx);
    st.handle_key(Key::Right, &mut idx);
    assert_eq!(st.cursor_index, 3);
    assert_eq!(st.handle_key(Key::Esc, &mut idx), None);
    assert_eq!(st.handle_key(Key::Interrupt, &mut idx), Some(true));
    assert_eq!(idx, None);
}

fn list() -> Vec<LauncherResult> {
    vec![
        LauncherResult::App("/A/Safari.app".to_string()),
        LauncherResult::Command("search".to_string(), "saf".to_string()),
    ]
}

#[test]
fn selection_wraps_and_enter_reports_it() {
    let mut st = typed("saf");
    let mut idx = None;
    st.update(&list());
    assert_eq!(st.selected, Some(0));
    st.handle_key(Key::Up, &mut idx);
    assert_eq!(st.selected, Some(1));
    st.handle_key(Key::Down, &mut idx);
    assert_eq!(st.selected, Some(0));
    assert_eq!(st.handle_key(Key::Enter, &mut idx), Some(true));
    assert_eq!(idx, Some(0));
}

#[test]
fn empty_query_shows_nothing() {
    let mut st = InputState::new("> ");
    st.update(&list());
    assert_eq!(st.list_len, 0);
    assert_eq!(st.selected, None);
    let mut idx = Some(7);
    assert_eq!(st.handle_key(Key::Enter, &mut idx), Some(false));
    assert_eq!(idx, None);
}

#[test]
fn tab_previews_and_typing_takes_completion() {
    let mut st = typed("saf");
    let mut idx = None;
    st.update(&list());
    st.handle_key(Key::Tab, &mut idx);
    assert!(st.completion);
    assert_eq!(st.selected, Some(1));
    st.update(&list());
    assert_eq!(st.completion_content.as_deref(), Some(":search saf"));
    st.handle_key(Key::Char('!'), &mut idx);
    assert_eq!(st.get_query(), ":search saf!");
    assert!(!st.completion);
}

#[test]
fn completion_text_of_results() {
    assert_eq!(completion_text(&LauncherResult::File("/etc/hosts".to_string())), "/etc/hosts");
    assert_eq!(completion_text(&LauncherResult::Command("exec".to_string(), "".to_string())), ":exec");
}

#[test]
fn result_lines() {
    assert_eq!(LauncherResult::Url("u".to_string()).get_string(), "Url  | u");
    assert_eq!(LauncherResult::Bin("/bin/ls".to_string()).get_string(), "Bin  | /bin/ls");
    assert_eq!(LauncherResult::File("f".to_string()).get_string(), "File | f");
    assert_eq!(LauncherResult::App("a".to_string()).get_string(), "App  | a");
    assert_eq!(LauncherResult::Command("c".to_string(), "p".to_string()).get_string(), "Cmd  | :c p");
}

#[test]
fn prerun_of_commands() {
    let cfg = "/cfg".to_string();
    assert!(LauncherResult::Command("find".to_string(), "x".to_string()).prerun_command(&cfg).is_empty());
    let r = LauncherResult::Command("config".to_string(), "".to_string()).prerun_command(&cfg);
    assert_eq!(r[0].get_string(), "File | /cfg");
    let r = LauncherResult::Url("u".to_string()).prerun_command(&cfg);
    assert_eq!(r[0].get_string(), "Url  | u");
}

fn plan(r: &LauncherResult, textual: bool) -> (Option<String>, bool) {
    let l = r.select(&"hx".to_string(), &"/src".to_string(), textual).unwrap();
    (l.command, l.wait_after)
}

#[test]
fn launch_plans() {
    assert_eq!(plan(&LauncherResult::Url("http://a".to_string()), false), (Some("open 'http://a'".to_string()), false));
    assert_eq!(plan(&LauncherResult::App("/A/S.app".to_string()), false), (Some("open '/A/S.app'".to_string()), false));
    assert_eq!(plan(&LauncherResult::Bin("/bin/ls".to_string()), false), (Some("/bin/ls".to_string()), true));
    assert_eq!(plan(&LauncherResult::File("/t.txt".to_string()), true), (Some("hx '/t.txt'".to_string()), false));
    assert_eq!(plan(&LauncherResult::File("/p.png".to_string()), false), (Some("open '/p.png'".to_string()), false));
    assert_eq!(plan(&LauncherResult::Command("other".to_string(), "".to_string()), false), (None, false));
}

#[test]
fn search_command_encodes_query() {
    let l = run_command("search", "rust lang&x", &"/src".to_string()).unwrap();
    assert_eq!(l.command.unwrap(), "open 'https://www.google.com/search?q=rust+lang%26x'");
    assert!(!l.wait_after);
    let l = run_command("exec", "ls -la", &"/src".to_string()).unwrap();
    assert_eq!((l.command.unwrap(), l.wait_after), ("ls -la".to_string(), true));
    let l = run_command("update", "", &"/src".to_string()).unwrap();
    assert_eq!(l.command.unwrap(), "cd /src && git pull && cargo build --release");
    assert_eq!(LaunchError::BadUrl, LaunchError::BadUrl.clone());
}

#[test]
fn text_formats() {
    assert!(is_textual("ASCII TEXT"));
    assert!(is_textual("JSON data"));
    assert!(!is_textual("PNG image data"));
    assert!(names_text_format("csv text"));
    assert!(!names_text_format("TEXT"));
}
