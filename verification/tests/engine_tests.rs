use autotyper::engine::{
    typing_plan, TypingAction, TypingRun, VK_RETURN, VK_TAB, WM_CHAR, WM_KEYDOWN, WM_KEYUP,
};
use std::cell::Cell;

/// Carries out a run as the application does: stop checks ask `cancel`,
/// reports go to `progress`; returns the number of characters sent.
fn run_plan(
    text: &str,
    mut progress: Option<impl FnMut(usize, usize)>,
    mut cancel: Option<impl FnMut() -> bool>,
) -> usize {
    let mut run = TypingRun::new(text);
    while let Some(a) = run.current() {
        let stop = match a {
            TypingAction::CheckCancel => cancel.as_mut().map_or(false, |f| f()),
            TypingAction::Progress(n, total) => {
                if let Some(f) = progress.as_mut() {
                    f(n, total);
                }
                false
            }
            _ => false,
        };
        run.advance(stop);
    }
    run.chars_sent()
}

/// The window messages a plan posts.
fn messages(payload: &str) -> Vec<(u32, usize)> {
    let mut out = Vec::new();
    for a in typing_plan(payload) {
        match a {
            TypingAction::SendChar(c) => out.push((WM_CHAR, c as u32 as usize)),
            TypingAction::SendKey(vk) => {
                out.push((WM_KEYDOWN, vk as usize));
                out.push((WM_KEYUP, vk as usize));
            }
            _ => {}
        }
    }
    out
}

fn type_text(text: &str) -> usize {
    run_plan(text, None::<fn(usize, usize)>, None::<fn() -> bool>)
}

#[test]
fn types_all_chars_without_cancel() {
    assert_eq!(type_text("abc"), 3);
}

#[test]
fn progress_callback_counts_all_chars() {
    let seen = Cell::new((0usize, 0usize));
    let sent = run_plan(
        "abcd",
        Some(|cur: usize, total: usize| seen.set((cur, total))),
        None::<fn() -> bool>,
    );
    assert_eq!(sent, 4);
    assert_eq!(seen.get(), (4, 4));
}

#[test]
fn cancel_aborts_midway() {
    let calls = Cell::new(0u32);
    let sent = run_plan(
        "abcdefghij",
        None::<fn(usize, usize)>,
        Some(|| {
            calls.set(calls.get() + 1);
            calls.get() > 4
        }),
    );
    // 行起始检查 1 次，随后每字符「先检查后发送」——第 5 次回调触发取消，故发送 3 个字符
    assert_eq!(sent, 3);
    assert!(sent < 10);
}

#[test]
fn cancel_before_first_char() {
    let sent = run_plan(
        "abcdef", None::<fn(usize, usize)>, Some(|| true));
    assert_eq!(sent, 0);
}

#[test]
fn multi_line_cancel_checked_per_char_and_line() {
    let checks = Cell::new(0u32);
    let sent = run_plan(
        "ab\ncd",
        None::<fn(usize, usize)>,
        Some(|| {
            checks.set(checks.get() + 1);
            false
        }),
    );
    assert_eq!(sent, 4);
    // 每个字符 + 每行起始都会检查
    assert!(checks.get() >= 4);
    assert_eq!(checks.get(), 6);
}

#[test]
fn total_chars_includes_newlines() {
    let last_total = Cell::new(0usize);
    run_plan(
        "ab\ncd",
        Some(|_cur: usize, total: usize| last_total.set(total)),
        None::<fn() -> bool>,
    );
    assert_eq!(last_total.get(), 5);
}

#[test]
fn unicode_chars_supported() {
    assert_eq!(type_text("你好，世界！∈∀"), 8);
}

#[test]
fn injects_ascii_chars_in_order() {
    assert_eq!(type_text("abc"), 3);
    assert_eq!(
        messages("abc"),
        vec![
            (WM_CHAR, 'a' as u32 as usize),
            (WM_CHAR, 'b' as u32 as usize),
            (WM_CHAR, 'c' as u32 as usize),
        ]
    );
}

#[test]
fn injects_unicode_code_points() {
    assert_eq!(type_text("你好"), 2);
    assert_eq!(messages("你好"), vec![(WM_CHAR, 0x4F60), (WM_CHAR, 0x597D)]);
}

#[test]
fn newline_becomes_return_key_events() {
    assert_eq!(type_text("ab\ncd"), 4);
    assert_eq!(
        messages("ab\ncd"),
        vec![
            (WM_CHAR, 'a' as u32 as usize),
            (WM_CHAR, 'b' as u32 as usize),
            (WM_KEYDOWN, VK_RETURN as usize),
            (WM_KEYUP, VK_RETURN as usize),
            (WM_CHAR, 'c' as u32 as usize),
            (WM_CHAR, 'd' as u32 as usize),
        ]
    );
}

#[test]
fn tab_becomes_tab_key_events() {
    assert_eq!(type_text("a\tb"), 3);
    assert_eq!(
        messages("a\tb"),
        vec![
            (WM_CHAR, 'a' as u32 as usize),
            (WM_KEYDOWN, VK_TAB as usize),
            (WM_KEYUP, VK_TAB as usize),
            (WM_CHAR, 'b' as u32 as usize),
        ]
    );
}

#[test]
fn empty_line_still_sends_return() {
    assert_eq!(type_text("a\n\nb"), 2);
    assert_eq!(
        messages("a\n\nb"),
        vec![
            (WM_CHAR, 'a' as u32 as usize),
            (WM_KEYDOWN, VK_RETURN as usize),
            (WM_KEYUP, VK_RETURN as usize),
            (WM_KEYDOWN, VK_RETURN as usize),
            (WM_KEYUP, VK_RETURN as usize),
            (WM_CHAR, 'b' as u32 as usize),
        ]
    );
}

#[test]
fn mixed_payload_full_sequence() {
    assert_eq!(type_text("ab\n你\t"), 4);
    assert_eq!(
        messages("ab\n你\t"),
        vec![
            (WM_CHAR, 'a' as u32 as usize),
            (WM_CHAR, 'b' as u32 as usize),
            (WM_KEYDOWN, VK_RETURN as usize),
            (WM_KEYUP, VK_RETURN as usize),
            (WM_CHAR, 0x4F60),
            (WM_KEYDOWN, VK_TAB as usize),
            (WM_KEYUP, VK_TAB as usize),
        ]
    );
}

#[test]
fn trailing_newline_and_empty_text_send_extra_return() {
    assert_eq!(
        messages("a\n"),
        vec![
            (WM_CHAR, 'a' as u32 as usize),
            (WM_KEYDOWN, VK_RETURN as usize),
            (WM_KEYUP, VK_RETURN as usize),
            (WM_KEYDOWN, VK_RETURN as usize),
            (WM_KEYUP, VK_RETURN as usize),
        ]
    );
    assert_eq!(
        typing_plan(""),
        vec![
            TypingAction::CheckCancel,
            TypingAction::SendKey(VK_RETURN),
            TypingAction::LinePause
        ]
    );
}

#[test]
fn plan_of_one_character() {
    assert_eq!(
        typing_plan("x"),
        vec![
            TypingAction::CheckCancel,
            TypingAction::CheckCancel,
            TypingAction::SendChar('x'),
            TypingAction::CharPause,
            TypingAction::Progress(1, 1),
        ]
    );
}

#[test]
fn stopped_run_has_sent_a_beginning_of_the_text() {
    let mut run = TypingRun::new("ab\ncd");
    let mut checks = 0;
    let mut sends = Vec::new();
    while let Some(a) = run.current() {
        let stop = match a {
            TypingAction::CheckCancel => {
                checks += 1;
                checks == 4
            }
            TypingAction::SendChar(_) | TypingAction::SendKey(_) => {
                sends.push(a);
                false
            }
            _ => false,
        };
        run.advance(stop);
    }
    assert_eq!(checks, 4);
    assert_eq!(run.chars_sent(), 2);
    assert_eq!(
        sends,
        vec![
            TypingAction::SendChar('a'),
            TypingAction::SendChar('b'),
            TypingAction::SendKey(VK_RETURN)
        ]
    );
    // a stopped run stays stopped
    run.advance(false);
    assert_eq!(run.current(), None);
}
