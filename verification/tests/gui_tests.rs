use autotyper::countdown::{Countdown, CountdownStep};
use autotyper::cli::CancelReason;
use autotyper::engine::TypingAction;
use autotyper::session::{Session, SessionStep};
use autotyper::gui::{
    cancelled_status, countdown_status, finish_status, gui_countdown, snippet_save_request,
    text_to_type, typing_progress_status, typing_status, worker_end, SnippetSave, WorkerEnd,
};

/// Drives a run as the window's worker does: the Stop button is pressed
/// once `stop_after` characters are sent (`usize::MAX`: never). Returns the
/// final status and whether progress reached 100.
fn worker(text: &str, countdown: i64, stop_after: usize) -> (String, bool) {
    let mut session = Session::new(countdown, text, false);
    let mut sent = 0usize;
    loop {
        let stop = sent >= stop_after;
        match session.step(stop, false) {
            SessionStep::Announce(_) | SessionStep::Wait | SessionStep::Begin => {}
            SessionStep::Act(TypingAction::Progress(n, _)) => sent = n,
            SessionStep::Act(_) => {}
            SessionStep::Cancelled => return (cancelled_status(), false),
            SessionStep::Finished => break,
        }
    }
    let (reason, n) = session.outcome().unwrap();
    let end = worker_end(sent >= stop_after, reason == Some(CancelReason::FailSafe));
    (finish_status(end, n), end == WorkerEnd::Completed)
}

#[test]
fn worker_cancel_during_countdown() {
    // 倒计时期间按下停止：工作线程应立即结束并给出「已取消输入」
    let (status, full) = worker("hello", 3, 0);
    assert_eq!(status, "已取消输入");
    assert!(!full);
}

#[test]
fn worker_stop_midway_reports_stopped() {
    let (status, full) = worker("abcdefgh", 0, 2);
    assert!(status.starts_with("已停止，已发送 "), "status={status}");
    assert_eq!(status, "已停止，已发送 2 个字符");
    assert!(!full);
}

#[test]
fn worker_completes_with_full_progress() {
    let (status, full) = worker("abc", 0, usize::MAX);
    assert_eq!(status, "输入完成，共发送 3 个字符");
    assert!(full);
    assert_eq!(finish_status(worker_end(false, true), 1), "紧急停止，已发送 1 个字符");
}

#[test]
fn countdown_runs_ten_waits_per_second() {
    let mut c = Countdown::new(2);
    let mut steps = Vec::new();
    loop {
        let s = c.step(false);
        steps.push(s);
        if s == CountdownStep::Begin {
            break;
        }
    }
    assert_eq!(steps.len(), 21);
    assert_eq!(steps[0], CountdownStep::Announce(2));
    assert_eq!(steps[10], CountdownStep::Announce(1));
    assert!(steps[1..10].iter().all(|s| *s == CountdownStep::Wait));
    assert_eq!(Countdown::new(0).step(false), CountdownStep::Begin);
    assert_eq!(Countdown::new(-5).step(false), CountdownStep::Begin);
}

#[test]
fn statuses() {
    assert_eq!(countdown_status(3), "3 秒后开始输入...");
    assert_eq!(typing_status(), "正在输入...");
    assert_eq!(typing_progress_status("33.3"), "正在输入... 33.3%");
    assert_eq!(typing_progress_status("100.0"), "正在输入... 100.0%");
}

#[test]
fn countdown_setting_is_clamped() {
    assert_eq!(gui_countdown(5), 5);
    assert_eq!(gui_countdown(0), 1);
    assert_eq!(gui_countdown(-7), 1);
    assert_eq!(gui_countdown(31), 30);
    assert_eq!(gui_countdown(i64::MAX), 30);
}

#[test]
fn start_types_trimmed_text() {
    assert_eq!(text_to_type("  hi\n"), Some("hi".to_string()));
    assert_eq!(text_to_type(" \t\n"), None);
}

#[test]
fn saving_snippet_from_editor() {
    assert!(matches!(snippet_save_request("  ", "text"), SnippetSave::Ignore));
    assert!(matches!(snippet_save_request("n", "  "), SnippetSave::EmptyText));
    match snippet_save_request(" name ", "\n body \n") {
        SnippetSave::Save(n, c) => {
            assert_eq!(n, "name");
            assert_eq!(c, "body");
        }
        other => panic!("unexpected {other:?}"),
    }
}

#[test]
fn stop_button_seen_at_the_end_comes_first() {
    assert_eq!(worker_end(true, true), WorkerEnd::Stopped);
    assert_eq!(worker_end(false, true), WorkerEnd::EmergencyStop);
    assert_eq!(worker_end(false, false), WorkerEnd::Completed);
}
