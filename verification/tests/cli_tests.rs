use autotyper::cli::{
    cli_check_text, cli_file_error, cli_finish, cli_input, cli_start, countdown_banner,
    countdown_tick, effective_countdown, format_snippet_list, help_text, parse_args,
    progress_line, split_entry_flag, stop_reason, take_value, CancelReason, CliExit, CliInput,
    CliOptions,
};
use autotyper::config::{add_snippet, empty_snippets};
use autotyper::session::{Session, SessionStep};

fn argv(parts: &[&str]) -> Vec<String> {
    parts.iter().map(|s| s.to_string()).collect()
}

fn seconds(text: &Option<String>) -> Option<f64> {
    text.as_deref().map(|t| t.parse::<f64>().unwrap())
}

#[test]
fn split_entry_flag_strips_cli() {
    let rest = split_entry_flag(&argv(&["--cli", "--text", "hi"]));
    assert_eq!(rest, Some(argv(&["--text", "hi"])));
}

#[test]
fn split_entry_flag_only_cli() {
    assert_eq!(split_entry_flag(&argv(&["--cli"])), Some(vec![]));
}

#[test]
fn split_entry_flag_absent() {
    assert_eq!(split_entry_flag(&argv(&["--text", "hi"])), None);
}

#[test]
fn split_entry_flag_removes_every_occurrence() {
    let rest = split_entry_flag(&argv(&["-t", "--cli", "x", "--cli"]));
    assert_eq!(rest, Some(argv(&["-t", "x"])));
}

#[test]
fn parse_text_and_short_flag() {
    let opts = parse_args(&argv(&["--text", "hello"])).unwrap();
    assert_eq!(opts.text.as_deref(), Some("hello"));
    let opts = parse_args(&argv(&["-t", "hello"])).unwrap();
    assert_eq!(opts.text.as_deref(), Some("hello"));
    let opts = parse_args(&argv(&["--text=hello"])).unwrap();
    assert_eq!(opts.text.as_deref(), Some("hello"));
}

#[test]
fn parse_numeric_options() {
    let opts = parse_args(&argv(&[
        "-t",
        "x",
        "--interval",
        "0.02",
        "--line-delay",
        "0.1",
        "--countdown",
        "3",
    ]))
    .unwrap();
    assert_eq!(seconds(&opts.interval), Some(0.02));
    assert_eq!(seconds(&opts.line_delay), Some(0.1));
    assert_eq!(opts.countdown, Some(3));
}

#[test]
fn parse_boolean_flags() {
    let opts = parse_args(&argv(&["--list-snippets", "--no-failsafe", "-h"])).unwrap();
    assert!(opts.list_snippets);
    assert!(opts.no_failsafe);
    assert!(opts.help);
}

#[test]
fn parse_mutually_exclusive_sources() {
    let err = parse_args(&argv(&["--text", "a", "--file", "b"])).unwrap_err();
    assert!(err.contains("互斥"));
}

#[test]
fn parse_unknown_argument() {
    let err = parse_args(&argv(&["--bogus"])).unwrap_err();
    assert!(err.contains("无法识别的参数"));
}

#[test]
fn parse_missing_value() {
    let err = parse_args(&argv(&["--text"])).unwrap_err();
    assert!(err.contains("需要一个值"));
}

#[test]
fn parse_invalid_number() {
    let err = parse_args(&argv(&["-t", "x", "--interval", "abc"])).unwrap_err();
    assert!(err.contains("--interval 无效"));
    let err = parse_args(&argv(&["-t", "x", "--countdown", "1.5"])).unwrap_err();
    assert!(err.contains("--countdown 无效"));
}

#[test]
fn parse_error_messages_exact() {
    assert_eq!(
        parse_args(&argv(&["-t"])).unwrap_err(),
        "参数 -t 需要一个值"
    );
    assert_eq!(
        parse_args(&argv(&["--interval=1e"])).unwrap_err(),
        "参数 --interval 无效: 1e（应为秒数）"
    );
    assert_eq!(
        parse_args(&argv(&["--line-delay", "x"])).unwrap_err(),
        "参数 --line-delay 无效: x（应为秒数）"
    );
    assert_eq!(
        parse_args(&argv(&["--countdown", "9223372036854775808"])).unwrap_err(),
        "参数 --countdown 无效: 9223372036854775808（应为整数秒）"
    );
    assert_eq!(
        parse_args(&argv(&["--help=1"])).unwrap_err(),
        "无法识别的参数: --help=1"
    );
    assert_eq!(parse_args(&argv(&["-x"])).unwrap_err(), "无法识别的参数: -x");
    assert_eq!(
        parse_args(&argv(&["-t", "a", "-s", "b", "-f", "c"])).unwrap_err(),
        "参数 --text、--file、--snippet 互斥，只能指定其一"
    );
}

#[test]
fn parse_first_problem_wins() {
    // the bad number comes before the unknown argument and the conflict
    let err = parse_args(&argv(&["--interval", "abc", "--bogus"])).unwrap_err();
    assert!(err.contains("--interval 无效"));
    let err = parse_args(&argv(&["--text", "a", "--file", "b", "--bogus"])).unwrap_err();
    assert!(err.contains("无法识别的参数"));
}

#[test]
fn parse_numbers_as_std_does() {
    for good in ["1", "+1", "-1", ".5", "5.", "1e3", "1E-3", "inf", "-Infinity", "NaN", "1.5e+2"] {
        let opts = parse_args(&argv(&["--interval", good])).unwrap();
        assert_eq!(opts.interval.as_deref(), Some(good));
        assert!(good.parse::<f64>().is_ok());
    }
    for bad in ["", ".", "e3", "1e", "1.2.3", " 1", "1 ", "1_0", "infinit", "+-1", "0x10"] {
        assert!(parse_args(&argv(&["--interval", bad])).is_err(), "{bad}");
        assert!(bad.parse::<f64>().is_err());
    }
    for (text, value) in [("-9223372036854775808", i64::MIN), ("+42", 42), ("007", 7)] {
        let opts = parse_args(&argv(&["--countdown", text])).unwrap();
        assert_eq!(opts.countdown, Some(value));
    }
    for bad in ["", "+", "-", "1.0", " 1", "1x"] {
        assert!(parse_args(&argv(&["--countdown", bad])).is_err(), "{bad}");
    }
}

#[test]
fn parse_inline_value_same_as_separate() {
    for (inline, separate) in [
        (vec!["--file=a.txt"], vec!["--file", "a.txt"]),
        (vec!["--snippet=x=y"], vec!["--snippet", "x=y"]),
        (vec!["--countdown=-3"], vec!["--countdown", "-3"]),
        (vec!["--line-delay=0.5", "-h"], vec!["--line-delay", "0.5", "-h"]),
    ] {
        let a = parse_args(&argv(&inline)).unwrap();
        let b = parse_args(&argv(&separate)).unwrap();
        assert_eq!(format!("{a:?}"), format!("{b:?}"));
    }
    assert_eq!(
        parse_args(&argv(&["--countdown=x"])).unwrap_err(),
        parse_args(&argv(&["--countdown", "x"])).unwrap_err()
    );
}

#[test]
fn take_value_reads_next_argument() {
    let args = argv(&["--text", "v"]);
    let mut i = 0;
    assert_eq!(take_value(&args, &mut i, "--text"), Ok("v".to_string()));
    assert_eq!(i, 1);
    let args = argv(&["--text"]);
    let mut i = 0;
    assert_eq!(
        take_value(&args, &mut i, "--text"),
        Err("参数 --text 需要一个值".to_string())
    );
    assert_eq!(i, 1);
    let args = argv(&["a=b=c"]);
    let mut i = 0;
    assert_eq!(take_value(&args, &mut i, "a"), Ok("b=c".to_string()));
    assert_eq!(i, 0);
}

#[test]
fn snippet_list_empty() {
    let snippets = empty_snippets();
    assert_eq!(format_snippet_list(&snippets), "暂无保存的文本片段。");
}

#[test]
fn snippet_list_format() {
    let mut snippets = empty_snippets();
    add_snippet(&mut snippets, "片段A", "line1\nline2");
    let out = format_snippet_list(&snippets);
    assert!(out.contains("已保存的文本片段（共 1 个）："));
    assert!(out.contains("  • 片段A: line1 line2"));
    assert!(out.contains(&"-".repeat(40)));
}

#[test]
fn snippet_list_exact_layout() {
    let mut snippets = empty_snippets();
    add_snippet(&mut snippets, "b", "2");
    add_snippet(&mut snippets, "a", "1");
    let rule = "-".repeat(40);
    assert_eq!(
        format_snippet_list(&snippets),
        format!("已保存的文本片段（共 2 个）：\n{rule}\n  • b: 2\n  • a: 1\n{rule}")
    );
}

#[test]
fn snippet_preview_truncated_at_50_chars() {
    let mut snippets = empty_snippets();
    let long: String = "字".repeat(60);
    add_snippet(&mut snippets, "长片段", &long);
    let out = format_snippet_list(&snippets);
    let line = out.lines().find(|l| l.contains("长片段")).unwrap();
    assert!(line.contains(&"字".repeat(50)));
    assert!(line.ends_with("..."));
    assert!(!line.contains(&"字".repeat(51)));
}

#[test]
fn snippet_preview_of_exactly_50_chars_has_no_ellipsis() {
    let mut snippets = empty_snippets();
    add_snippet(&mut snippets, "n", &"x".repeat(50));
    let out = format_snippet_list(&snippets);
    assert!(out.contains(&format!("  • n: {}\n", "x".repeat(50))));
}

/// The percentage as the command line writes it: the floating-point ratio
/// with one decimal.
fn percent(current: usize, total: usize) -> String {
    let p = if total > 0 {
        current as f64 / total as f64 * 100.0
    } else {
        0.0
    };
    format!("{p:.1}")
}

fn line(current: usize, total: usize) -> String {
    progress_line(current, total, &percent(current, total))
}

#[test]
fn progress_bar_rendering() {
    assert_eq!(line(0, 100), format!("[{}] 0.0%", "░".repeat(30)));
    let half = line(50, 100);
    assert!(half.starts_with(&format!("[{}", "█".repeat(15))));
    assert!(half.ends_with("50.0%"));
    assert_eq!(
        line(100, 100),
        format!("[{}] 100.0%", "█".repeat(30))
    );
    // total=0 不 panic
    assert_eq!(line(0, 0), format!("[{}] 0.0%", "░".repeat(30)));
}

#[test]
fn progress_percent_matches_float_formatting() {
    for (cur, total) in [(1usize, 3usize), (2, 3), (1, 7), (1, 16), (3, 16), (5, 8), (7, 9), (200, 100), (1, 1000), (999, 1000), (1, 2000), (3, 2000), (23, 80)] {
        let percent = cur as f64 / total as f64 * 100.0;
        let filled = (30 * cur / total).min(30);
        let expected = format!(
            "[{}{}] {percent:.1}%",
            "█".repeat(filled),
            "░".repeat(30 - filled)
        );
        assert_eq!(line(cur, total), expected);
    }
}

#[test]
fn progress_line_takes_percentage_text_verbatim() {
    assert_eq!(
        progress_line(2, 7, "28.6"),
        format!("[{}{}] 28.6%", "█".repeat(8), "░".repeat(22))
    );
    assert_eq!(progress_line(200, 100, "200.0"), format!("[{}] 200.0%", "█".repeat(30)));
}

#[test]
fn help_text_describes_usage() {
    let h = help_text();
    assert!(h.starts_with("AutoTyper - 智能字符输入助手\n\n用法: AutoTyper --cli [选项]\n"));
    assert!(h.contains("  AutoTyper --cli --text \"Hello, World!\"\n"));
    assert!(h.ends_with("  AutoTyper --cli --snippet \"常用代码段\"\n"));
}

fn run_until_typing(args: &[&str]) -> i32 {
    run_until_typing_with(args, &[])
}

/// Runs a command line up to the start of typing, with `files` standing for
/// the readable files (path, content); any other path cannot be read.
fn run_until_typing_with(args: &[&str], files: &[(&str, &str)]) -> i32 {
    let snippets = empty_snippets();
    let opts = match cli_start(&argv(args)) {
        Ok(o) => o,
        Err(e) => return e.code,
    };
    let text = match cli_input(&opts, &snippets) {
        Ok(CliInput::Ready(t)) => t,
        Ok(CliInput::ReadFile(path)) => match files.iter().find(|(p, _)| *p == path) {
            Some((_, content)) => content.to_string(),
            None => return cli_file_error("系统找不到指定的路径。").code,
        },
        Err(e) => return e.code,
    };
    match cli_check_text(text) {
        Ok(_) => -1,
        Err(e) => e.code,
    }
}

#[test]
fn list_snippets_exits_zero_without_typing() {
    // --list-snippets 只列片段，不进入输入流程（不依赖桌面前台窗口）
    let code = run_until_typing(&["--list-snippets"]);
    assert_eq!(code, 0);
}

#[test]
fn empty_text_returns_one() {
    let code = run_until_typing(&["--text", "   ", "--countdown", "0"]);
    assert_eq!(code, 1);
}

#[test]
fn missing_snippet_returns_one() {
    let code = run_until_typing(&["--snippet", "肯定不存在的片段名", "--countdown", "0"]);
    assert_eq!(code, 1);
}

#[test]
fn no_source_returns_one() {
    let code = run_until_typing(&["--countdown", "0"]);
    assert_eq!(code, 1);
}

#[test]
fn unreadable_file_returns_one() {
    let code = run_until_typing(&["--file", "Z:/不存在的路径/xx.txt", "--countdown", "0"]);
    assert_eq!(code, 1);
}

#[test]
fn usage_error_returns_two() {
    let code = run_until_typing(&["--text", "a", "--file", "b"]);
    assert_eq!(code, 2);
}

#[test]
fn help_exits_zero_with_usage() {
    let e = cli_start(&argv(&["-h", "--text", "x"])).unwrap_err();
    assert_eq!(e.code, 0);
    assert_eq!(e.output, help_text());
    let e = cli_start(&argv(&["--bogus"])).unwrap_err();
    assert_eq!(e.output, format!("[错误] 无法识别的参数: --bogus\n{}", help_text()));
}

#[test]
fn snippet_source_reads_saved_text() {
    let mut snippets = empty_snippets();
    add_snippet(&mut snippets, "code", "fn main() {}");
    let opts = cli_start(&argv(&["--snippet", "code"])).unwrap();
    match cli_input(&opts, &snippets) {
        Ok(CliInput::Ready(t)) => assert_eq!(t, "fn main() {}"),
        other => panic!("unexpected {other:?}"),
    }
    let e = cli_input(&cli_start(&argv(&["-s", "nope"])).unwrap(), &snippets).unwrap_err();
    assert_eq!(e.output, "[错误] 未找到文本片段: nope\n");
}

#[test]
fn text_with_content_is_typed() {
    assert_eq!(cli_check_text(" a ".to_string()).unwrap(), " a ");
    assert_eq!(cli_check_text("\u{3000}\t\n".to_string()).unwrap_err().output, "[错误] 输入文本为空\n");
}

#[test]
fn finish_codes_and_messages() {
    let e = cli_finish(None, 12);
    assert_eq!((e.code, e.output.as_str()), (0, "\n\n输入完成，共发送 12 个字符\n"));
    let e = cli_finish(Some(CancelReason::FailSafe), 3);
    assert_eq!(e.code, 2);
    assert_eq!(e.output, "\n\n紧急停止（鼠标移至屏幕角落）\n已发送 3 个字符\n");
    let e = cli_finish(Some(CancelReason::CtrlC), 0);
    assert_eq!(e.code, 3);
    assert_eq!(e.output, "\n\n用户中断（Ctrl+C）\n已发送 0 个字符\n");
}

#[test]
fn countdown_settings_and_texts() {
    assert_eq!(effective_countdown(Some(3), 5), 3);
    assert_eq!(effective_countdown(None, 5), 5);
    assert_eq!(effective_countdown(Some(-4), 5), 0);
    assert_eq!(effective_countdown(None, -1), 0);
    assert_eq!(
        countdown_banner(5),
        "\n5 秒后开始输入...\n请将光标放到目标输入框中\n紧急停止：鼠标移至屏幕四角 或 Ctrl+C\n\n"
    );
    assert_eq!(countdown_tick(10), "  10...\n");
}

#[test]
fn default_options_are_empty() {
    let o = CliOptions::default();
    assert!(o.text.is_none() && o.file.is_none() && o.snippet.is_none());
    assert!(o.countdown.is_none() && !o.help && !o.list_snippets && !o.no_failsafe);
}

#[test]
fn stop_reasons_in_priority_order() {
    assert_eq!(stop_reason(true, true, true), Some(CancelReason::CtrlC));
    assert_eq!(stop_reason(false, true, true), Some(CancelReason::FailSafe));
    assert_eq!(stop_reason(false, false, true), None);
    assert_eq!(stop_reason(false, true, false), None);
}

#[test]
fn readable_file_is_typed_and_blank_file_refused() {
    let files = [("answer.py", "print(1)\n"), ("blank.txt", " \n\t")];
    assert_eq!(run_until_typing_with(&["--file", "answer.py", "--countdown", "0"], &files), -1);
    assert_eq!(run_until_typing_with(&["--file", "blank.txt", "--countdown", "0"], &files), 1);
    assert_eq!(run_until_typing_with(&["--file", "missing.txt", "--countdown", "0"], &files), 1);
}

/// Drives a run as the command line does: Ctrl+C is seen from the
/// `ctrl_c_at`-th stop check on, the mouse is in a corner from the
/// `corner_at`-th typing check on.
fn cli_run(
    text: &str,
    countdown: i64,
    failsafe: bool,
    ctrl_c_at: usize,
    corner_at: usize,
) -> CliExit {
    let mut session = Session::new(countdown, text, failsafe);
    let mut checks = 0usize;
    let mut typing_checks = 0usize;
    loop {
        checks += 1;
        let pressed = checks >= ctrl_c_at;
        let wants = session.wants_corner();
        if wants {
            typing_checks += 1;
        }
        let corner = !pressed && wants && typing_checks >= corner_at;
        match session.step(pressed, corner) {
            SessionStep::Cancelled | SessionStep::Finished => break,
            _ => {}
        }
    }
    let (reason, sent) = session.outcome().unwrap();
    cli_finish(reason, sent)
}

#[test]
fn whole_run_exit_codes() {
    let done = cli_run("ab\ncd", 1, true, usize::MAX, usize::MAX);
    assert_eq!(done.code, 0);
    assert_eq!(done.output, "\n\n输入完成，共发送 4 个字符\n");
    let cancelled = cli_run("ab", 2, true, 1, usize::MAX);
    assert_eq!(cancelled.code, 3);
    assert_eq!(cancelled.output, "\n\n用户中断（Ctrl+C）\n已发送 0 个字符\n");
    let corner = cli_run("abcdef", 0, true, usize::MAX, 3);
    assert_eq!(corner.code, 2);
    assert_eq!(corner.output, "\n\n紧急停止（鼠标移至屏幕角落）\n已发送 1 个字符\n");
    let no_failsafe = cli_run("abc", 0, false, usize::MAX, 1);
    assert_eq!(no_failsafe.code, 0);
}
