//! The decisions of the graphical mode: what its status bar says, what the
//! countdown setting starts at, and what the buttons accept.
use vstd::prelude::*;
use crate::text::{decimal_text, push_decimal, push_text, trim_text, trimmed};

verus! {

broadcast use vstd::string::group_string_axioms;

/// The countdown setting of the window: the configured seconds, kept
/// within 1 to 30.
pub fn gui_countdown(configured: i64) -> (r: i32)
    ensures
        r == (if configured < 1 {
            1
        } else if configured > 30 {
            30
        } else {
            configured
        }),
{
    if configured < 1 {
        1
    } else if configured > 30 {
        30
    } else {
        configured as i32
    }
}

/// Status during the countdown.
pub fn countdown_status(second: u64) -> (r: String)
    ensures
        r@ == decimal_text(second as nat) + " 秒后开始输入..."@,
{
    let mut s = String::new();
    push_decimal(&mut s, second as u128);
    push_text(&mut s, " 秒后开始输入...");
    s
}

/// Status when a stop comes during the countdown.
pub fn cancelled_status() -> (r: String)
    ensures
        r@ == "已取消输入"@,
{
    String::from_str("已取消输入")
}

/// Status when typing begins.
pub fn typing_status() -> (r: String)
    ensures
        r@ == "正在输入..."@,
{
    String::from_str("正在输入...")
}

/// Status while typing: the percentage sent, as the text the caller wrote
/// with one decimal.
pub fn typing_progress_status(percent: &str) -> (r: String)
    ensures
        r@ == "正在输入... "@ + percent@ + "%"@,
{
    let mut s = String::from_str("正在输入... ");
    push_text(&mut s, percent);
    push_text(&mut s, "%");
    s
}

/// How a typing run of the window ended.
#[derive(Debug, Clone, Copy, PartialEq, Eq, Structural)]
pub enum WorkerEnd {
    /// The Stop button was pressed.
    Stopped,
    /// The mouse reached a screen corner.
    EmergencyStop,
    /// Everything was typed; the progress bar shows 100 %.
    Completed,
}

/// The Stop button, seen pressed when typing ends, comes first; then the
/// emergency stop; otherwise the run completed.
pub open spec fn worker_end_of(stopped_by_user: bool, failsafe_hit: bool) -> WorkerEnd {
    if stopped_by_user {
        WorkerEnd::Stopped
    } else if failsafe_hit {
        WorkerEnd::EmergencyStop
    } else {
        WorkerEnd::Completed
    }
}

/// How a typing run of the window ended, as `worker_end_of` says.
pub fn worker_end(stopped_by_user: bool, failsafe_hit: bool) -> (r: WorkerEnd)
    ensures
        r == worker_end_of(stopped_by_user, failsafe_hit),
{
    if stopped_by_user {
        WorkerEnd::Stopped
    } else if failsafe_hit {
        WorkerEnd::EmergencyStop
    } else {
        WorkerEnd::Completed
    }
}

/// The status after typing ends.
pub open spec fn finish_status_text(end: WorkerEnd, sent: nat) -> Seq<char> {
    match end {
        WorkerEnd::Stopped => "已停止，已发送 "@ + decimal_text(sent) + " 个字符"@,
        WorkerEnd::EmergencyStop => "紧急停止，已发送 "@ + decimal_text(sent) + " 个字符"@,
        WorkerEnd::Completed => "输入完成，共发送 "@ + decimal_text(sent) + " 个字符"@,
    }
}

pub fn finish_status(end: WorkerEnd, sent: usize) -> (r: String)
    ensures
        r@ == finish_status_text(end, sent as nat),
{
    let mut s = match end {
        WorkerEnd::Stopped => String::from_str("已停止，已发送 "),
        WorkerEnd::EmergencyStop => String::from_str("紧急停止，已发送 "),
        WorkerEnd::Completed => String::from_str("输入完成，共发送 "),
    };
    push_decimal(&mut s, sent as u128);
    push_text(&mut s, " 个字符");
    s
}

/// The text the Start button types: the editor's text without leading and
/// trailing whitespace; nothing when that is empty.
pub fn text_to_type(editor_text: &str) -> (r: Option<String>)
    ensures
        trimmed(editor_text@).len() == 0 ==> r is None,
        trimmed(editor_text@).len() > 0 ==> (r matches Some(t) && t@ == trimmed(editor_text@)),
{
    let t = trim_text(editor_text);
    if t.as_str().unicode_len() == 0 {
        None
    } else {
        Some(t)
    }
}

/// What saving the editor's text as a snippet does.
#[derive(Debug)]
pub enum SnippetSave {
    /// The name is empty: nothing happens.
    Ignore,
    /// The text is empty: a warning, and nothing is saved.
    EmptyText,
    /// Save the content under the name.
    Save(String, String),
}

/// Name and content are both taken without surrounding whitespace; an empty
/// name is ignored, an empty content refused.
pub fn snippet_save_request(name: &str, editor_text: &str) -> (r: SnippetSave)
    ensures
        trimmed(name@).len() == 0 ==> r is Ignore,
        trimmed(name@).len() > 0 && trimmed(editor_text@).len() == 0 ==> r is EmptyText,
        trimmed(name@).len() > 0 && trimmed(editor_text@).len() > 0 ==> (r matches SnippetSave::Save(
            n,
            c,
        ) && n@ == trimmed(name@) && c@ == trimmed(editor_text@)),
{
    let n = trim_text(name);
    if n.as_str().unicode_len() == 0 {
        return SnippetSave::Ignore;
    }
    let c = trim_text(editor_text);
    if c.as_str().unicode_len() == 0 {
        return SnippetSave::EmptyText;
    }
    SnippetSave::Save(n, c)
}

} // verus!
