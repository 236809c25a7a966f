//! The input engine's decisions: the sequence of actions that types a text
//! into a window, character by character.
//!
//! The text is split into lines at `\n`. Each line starts with a stop check.
//! Each character of a line is preceded by a stop check, sent (a tab as the
//! Tab key, any other character as itself), followed by the character pause
//! and a progress report. Between lines the Return key is pressed and the
//! line delay is waited; an empty line, the last one included, also sends
//! Return. When a stop check answers yes, typing ends there.
use vstd::prelude::*;
use crate::text::chars_of;

verus! {

/// Window message of a key press.
pub const WM_KEYDOWN: u32 = 0x0100;

/// Window message of a key release.
pub const WM_KEYUP: u32 = 0x0101;

/// Window message of a typed character.
pub const WM_CHAR: u32 = 0x0102;

/// Virtual key code of the Tab key.
pub const VK_TAB: u32 = 0x09;

/// Virtual key code of the Return key.
pub const VK_RETURN: u32 = 0x0D;

/// One step of typing a text.
#[derive(Clone, Copy, Debug, PartialEq, Eq, Structural)]
pub enum TypingAction {
    /// Ask whether to stop; if so, typing ends here.
    CheckCancel,
    /// Post the character to the window.
    SendChar(char),
    /// Press and release the virtual key.
    SendKey(u32),
    /// Wait the interval between characters.
    CharPause,
    /// Wait the delay between lines.
    LinePause,
    /// Report progress: characters sent so far, and characters in the whole
    /// text (line feeds included).
    Progress(usize, usize),
}

/// How a character is sent: a tab as the Tab key, anything else as itself.
pub open spec fn key_for(c: char) -> TypingAction {
    if c == '\t' {
        TypingAction::SendKey(VK_TAB)
    } else {
        TypingAction::SendChar(c)
    }
}

/// Typing one character that is not a line feed.
pub open spec fn char_actions(c: char, sent: usize, total: usize) -> Seq<TypingAction> {
    seq![TypingAction::CheckCancel, key_for(c), TypingAction::CharPause, TypingAction::Progress(sent, total)]
}

/// Ending a line.
pub open spec fn line_break() -> Seq<TypingAction> {
    seq![TypingAction::SendKey(VK_RETURN), TypingAction::LinePause]
}

/// The actions that type `cs`, when `sent` characters are already sent out
/// of `total`, and `at_line_start` says whether `cs` begins a line.
pub open spec fn plan_from(cs: Seq<char>, at_line_start: bool, sent: nat, total: usize) -> Seq<
    TypingAction,
>
    decreases cs.len(),
{
    let start = if at_line_start {
        seq![TypingAction::CheckCancel]
    } else {
        Seq::empty()
    };
    if cs.len() == 0 {
        if at_line_start {
            start + line_break()
        } else {
            Seq::empty()
        }
    } else if cs[0] == '\n' {
        start + line_break() + plan_from(cs.drop_first(), true, sent, total)
    } else {
        start + char_actions(cs[0], (sent + 1) as usize, total) + plan_from(
            cs.drop_first(),
            false,
            sent + 1,
            total,
        )
    }
}

/// The actions that type `text`.
pub open spec fn typing_plan_of(text: Seq<char>) -> Seq<TypingAction> {
    plan_from(text, true, 0, text.len() as usize)
}

/// The actions that type `text`, in order.
pub fn typing_plan(text: &str) -> (plan: Vec<TypingAction>)
    ensures
        plan@ == typing_plan_of(text@),
{
    let cs = chars_of(text);
    let total = cs.len();
    let mut plan: Vec<TypingAction> = Vec::new();
    let mut at_start = true;
    let mut sent: usize = 0;
    let mut i: usize = 0;
    assert(cs@.skip(0) == cs@);
    while i < total
        invariant
            cs@ == text@,
            total == cs@.len(),
            i <= total,
            sent <= i,
            plan@ + plan_from(cs@.skip(i as int), at_start, sent as nat, total) == typing_plan_of(
                cs@,
            ),
        decreases total - i,
    {
        let ghost rest = cs@.skip(i as int);
        assert(rest[0] == cs@[i as int]);
        assert(rest.drop_first() == cs@.skip(i + 1));
        let c = cs[i];
        if at_start {
            plan.push(TypingAction::CheckCancel);
        }
        if c == '\n' {
            plan.push(TypingAction::SendKey(VK_RETURN));
            plan.push(TypingAction::LinePause);
            at_start = true;
        } else {
            sent = sent + 1;
            plan.push(TypingAction::CheckCancel);
            if c == '\t' {
                plan.push(TypingAction::SendKey(VK_TAB));
            } else {
                plan.push(TypingAction::SendChar(c));
            }
            plan.push(TypingAction::CharPause);
            plan.push(TypingAction::Progress(sent, total));
            at_start = false;
        }
        i = i + 1;
    }
    if at_start {
        plan.push(TypingAction::CheckCancel);
        plan.push(TypingAction::SendKey(VK_RETURN));
        plan.push(TypingAction::LinePause);
    }
    assert(cs@.skip(total as int) == Seq::<char>::empty());
    plan
}

/// The progress reports of a sequence of actions, in order.
pub open spec fn reports(plan: Seq<TypingAction>) -> Seq<(usize, usize)>
    decreases plan.len(),
{
    if plan.len() == 0 {
        Seq::empty()
    } else {
        match plan[0] {
            TypingAction::Progress(a, b) => seq![(a, b)] + reports(plan.drop_first()),
            _ => reports(plan.drop_first()),
        }
    }
}

/// What reaches the window: the characters and keys sent, in order.
pub open spec fn sends(plan: Seq<TypingAction>) -> Seq<TypingAction>
    decreases plan.len(),
{
    if plan.len() == 0 {
        Seq::empty()
    } else {
        match plan[0] {
            TypingAction::SendChar(_) => seq![plan[0]] + sends(plan.drop_first()),
            TypingAction::SendKey(_) => seq![plan[0]] + sends(plan.drop_first()),
            _ => sends(plan.drop_first()),
        }
    }
}

/// How many stop checks a sequence of actions makes.
pub open spec fn checks(plan: Seq<TypingAction>) -> nat
    decreases plan.len(),
{
    if plan.len() == 0 {
        0
    } else {
        (if plan[0] == TypingAction::CheckCancel {
            1nat
        } else {
            0nat
        }) + checks(plan.drop_first())
    }
}

/// Characters of `cs` other than line feeds.
pub open spec fn non_newlines(cs: Seq<char>) -> nat
    decreases cs.len(),
{
    if cs.len() == 0 {
        0
    } else {
        (if cs[0] == '\n' {
            0nat
        } else {
            1nat
        }) + non_newlines(cs.drop_first())
    }
}

/// Line feeds in `cs`.
pub open spec fn newlines(cs: Seq<char>) -> nat
    decreases cs.len(),
{
    if cs.len() == 0 {
        0
    } else {
        (if cs[0] == '\n' {
            1nat
        } else {
            0nat
        }) + newlines(cs.drop_first())
    }
}

/// The keystroke of each character: Return for a line feed, Tab for a tab,
/// the character itself otherwise.
pub open spec fn keystrokes(cs: Seq<char>) -> Seq<TypingAction>
    decreases cs.len(),
{
    if cs.len() == 0 {
        Seq::empty()
    } else {
        seq![
            if cs[0] == '\n' {
                TypingAction::SendKey(VK_RETURN)
            } else {
                key_for(cs[0])
            },
        ] + keystrokes(cs.drop_first())
    }
}

/// Whether the last line of `cs` is empty (`cs` starting a line).
pub open spec fn last_line_empty(cs: Seq<char>, at_line_start: bool) -> bool {
    if cs.len() == 0 {
        at_line_start
    } else {
        cs.last() == '\n'
    }
}

proof fn lemma_reports_add(a: Seq<TypingAction>, b: Seq<TypingAction>)
    ensures
        reports(a + b) == reports(a) + reports(b),
        sends(a + b) == sends(a) + sends(b),
        checks(a + b) == checks(a) + checks(b),
    decreases a.len(),
{
    if a.len() == 0 {
        assert(a + b == b);
    } else {
        lemma_reports_add(a.drop_first(), b);
        assert((a + b).drop_first() == a.drop_first() + b);
        assert((a + b)[0] == a[0]);
    }
}

proof fn lemma_parts(c: char, n: usize, total: usize)
    ensures
        reports(seq![TypingAction::CheckCancel]) == Seq::<(usize, usize)>::empty(),
        sends(seq![TypingAction::CheckCancel]) == Seq::<TypingAction>::empty(),
        checks(seq![TypingAction::CheckCancel]) == 1,
        reports(Seq::<TypingAction>::empty()) == Seq::<(usize, usize)>::empty(),
        sends(Seq::<TypingAction>::empty()) == Seq::<TypingAction>::empty(),
        checks(Seq::<TypingAction>::empty()) == 0,
        reports(line_break()) == Seq::<(usize, usize)>::empty(),
        sends(line_break()) == seq![TypingAction::SendKey(VK_RETURN)],
        checks(line_break()) == 0,
        reports(char_actions(c, n, total)) == seq![(n, total)],
        sends(char_actions(c, n, total)) == seq![key_for(c)],
        checks(char_actions(c, n, total)) == 1,
{
    reveal_with_fuel(reports, 5);
    reveal_with_fuel(sends, 5);
    reveal_with_fuel(checks, 5);
    let cc = seq![TypingAction::CheckCancel];
    assert(cc.drop_first() == Seq::<TypingAction>::empty());
    let lb = line_break();
    assert(lb.drop_first() == seq![TypingAction::LinePause]);
    assert(lb.drop_first().drop_first() == Seq::<TypingAction>::empty());
    let ca = char_actions(c, n, total);
    assert(ca.drop_first() == seq![key_for(c), TypingAction::CharPause, TypingAction::Progress(n, total)]);
    assert(ca.drop_first().drop_first() == seq![TypingAction::CharPause, TypingAction::Progress(n, total)]);
    assert(ca.drop_first().drop_first().drop_first() == seq![TypingAction::Progress(n, total)]);
    assert(ca.drop_first().drop_first().drop_first().drop_first() == Seq::<TypingAction>::empty());
    assert(sends(seq![TypingAction::LinePause]) == Seq::<TypingAction>::empty());
    assert(sends(lb) == seq![TypingAction::SendKey(VK_RETURN)] + Seq::<TypingAction>::empty());
    assert(sends(ca.drop_first()) == seq![key_for(c)] + Seq::<TypingAction>::empty());
    assert(reports(ca.drop_first().drop_first().drop_first()) == seq![(n, total)] + Seq::<(usize, usize)>::empty());
}

proof fn lemma_plan_from(cs: Seq<char>, at_line_start: bool, sent: nat, total: usize)
    requires
        sent + non_newlines(cs) <= total,
    ensures
        reports(plan_from(cs, at_line_start, sent, total)) == Seq::new(
            non_newlines(cs),
            |i: int| ((sent + i + 1) as usize, total),
        ),
        sends(plan_from(cs, at_line_start, sent, total)) == keystrokes(cs) + (if last_line_empty(
            cs,
            at_line_start,
        ) {
            seq![TypingAction::SendKey(VK_RETURN)]
        } else {
            Seq::empty()
        }),
        checks(plan_from(cs, at_line_start, sent, total)) == non_newlines(cs) + newlines(cs) + (
        if at_line_start {
            1nat
        } else {
            0nat
        }),
    decreases cs.len(),
{
    let start = if at_line_start {
        seq![TypingAction::CheckCancel]
    } else {
        Seq::<TypingAction>::empty()
    };
    let plan = plan_from(cs, at_line_start, sent, total);
    if cs.len() == 0 {
        lemma_parts('a', 0, total);
        lemma_reports_add(start, line_break());
        assert(reports(plan) =~= Seq::new(
            non_newlines(cs),
            |i: int| ((sent + i + 1) as usize, total),
        ));
        assert(sends(plan) =~= keystrokes(cs) + (if last_line_empty(cs, at_line_start) {
            seq![TypingAction::SendKey(VK_RETURN)]
        } else {
            Seq::empty()
        }));
    } else if cs[0] == '\n' {
        let rest = cs.drop_first();
        let tail = plan_from(rest, true, sent, total);
        lemma_plan_from(rest, true, sent, total);
        lemma_parts('a', 0, total);
        lemma_reports_add(start, line_break());
        lemma_reports_add(start + line_break(), tail);
        assert(plan == start + line_break() + tail);
        if rest.len() > 0 {
            assert(rest.last() == cs.last());
        }
        assert(reports(plan) =~= Seq::new(
            non_newlines(cs),
            |i: int| ((sent + i + 1) as usize, total),
        ));
        assert(keystrokes(cs) == seq![TypingAction::SendKey(VK_RETURN)] + keystrokes(rest));
        assert(sends(plan) =~= keystrokes(cs) + (if last_line_empty(cs, at_line_start) {
            seq![TypingAction::SendKey(VK_RETURN)]
        } else {
            Seq::empty()
        }));
    } else {
        let rest = cs.drop_first();
        let acts = char_actions(cs[0], (sent + 1) as usize, total);
        let tail = plan_from(rest, false, sent + 1, total);
        lemma_plan_from(rest, false, sent + 1, total);
        lemma_parts(cs[0], (sent + 1) as usize, total);
        lemma_reports_add(start, acts);
        lemma_reports_add(start + acts, tail);
        assert(plan == start + acts + tail);
        if rest.len() > 0 {
            assert(rest.last() == cs.last());
        }
        assert(reports(plan) =~= Seq::new(
            non_newlines(cs),
            |i: int| ((sent + i + 1) as usize, total),
        ));
        assert(keystrokes(cs) == seq![key_for(cs[0])] + keystrokes(rest));
        assert(sends(plan) =~= keystrokes(cs) + (if last_line_empty(cs, at_line_start) {
            seq![TypingAction::SendKey(VK_RETURN)]
        } else {
            Seq::empty()
        }));
    }
}

proof fn lemma_counts_bounded(cs: Seq<char>)
    ensures
        non_newlines(cs) + newlines(cs) == cs.len(),
    decreases cs.len(),
{
    if cs.len() > 0 {
        lemma_counts_bounded(cs.drop_first());
    }
}

/// Typing a text to the end reports progress once per character that is not
/// a line feed, counting 1, 2, 3, ... of the whole text's length (line feeds
/// included); so the characters sent are the characters that are not line
/// feeds, and a report always carries the number sent so far.
pub proof fn law_progress_counts_characters(text: Seq<char>)
    requires
        text.len() <= usize::MAX,
    ensures
        reports(typing_plan_of(text)) == Seq::new(
            non_newlines(text),
            |i: int| ((i + 1) as usize, text.len() as usize),
        ),
{
    lemma_counts_bounded(text);
    lemma_plan_from(text, true, 0, text.len() as usize);
    assert(reports(typing_plan_of(text)) =~= Seq::new(
        non_newlines(text),
        |i: int| ((i + 1) as usize, text.len() as usize),
    ));
}

/// What reaches the window is one keystroke per character (Return for a line
/// feed, Tab for a tab, the character itself otherwise), and one more Return
/// when the last line is empty (the empty text, or a text that ends with a
/// line feed).
pub proof fn law_keystrokes_follow_text(text: Seq<char>)
    requires
        text.len() <= usize::MAX,
    ensures
        sends(typing_plan_of(text)) == keystrokes(text) + (if last_line_empty(text, true) {
            seq![TypingAction::SendKey(VK_RETURN)]
        } else {
            Seq::empty()
        }),
{
    lemma_counts_bounded(text);
    lemma_plan_from(text, true, 0, text.len() as usize);
}

/// Typing checks for a stop once per line and once before each character
/// that is not a line feed.
pub proof fn law_stop_checked_per_line_and_character(text: Seq<char>)
    requires
        text.len() <= usize::MAX,
    ensures
        checks(typing_plan_of(text)) == non_newlines(text) + newlines(text) + 1,
{
    lemma_counts_bounded(text);
    lemma_plan_from(text, true, 0, text.len() as usize);
}


proof fn lemma_take_step(cs: Seq<char>, i: int)
    requires
        cs.len() > 0,
        0 <= i < cs.len(),
    ensures
        keystrokes(cs.take(i + 1)) == seq![
            if cs[0] == '\n' {
                TypingAction::SendKey(VK_RETURN)
            } else {
                key_for(cs[0])
            },
        ] + keystrokes(cs.drop_first().take(i)),
        non_newlines(cs.take(i + 1)) == (if cs[0] == '\n' {
            0nat
        } else {
            1nat
        }) + non_newlines(cs.drop_first().take(i)),
{
    let t = cs.take(i + 1);
    assert(t[0] == cs[0]);
    assert(t.drop_first() =~= cs.drop_first().take(i));
}

/// Where the `j`-th action of a plan is a stop check, the actions before it
/// have sent the keystrokes of the first `i` characters and reported each of
/// their characters that is not a line feed.
proof fn lemma_stop_prefix(cs: Seq<char>, at_line_start: bool, sent: nat, total: usize, j: int) -> (i: int)
    requires
        0 <= j < plan_from(cs, at_line_start, sent, total).len(),
        plan_from(cs, at_line_start, sent, total)[j] == TypingAction::CheckCancel,
    ensures
        0 <= i <= cs.len(),
        sends(plan_from(cs, at_line_start, sent, total).take(j)) == keystrokes(cs.take(i)),
        reports(plan_from(cs, at_line_start, sent, total).take(j)) == Seq::new(
            non_newlines(cs.take(i)),
            |m: int| ((sent + m + 1) as usize, total),
        ),
    decreases cs.len(),
{
    let plan = plan_from(cs, at_line_start, sent, total);
    let start = if at_line_start {
        seq![TypingAction::CheckCancel]
    } else {
        Seq::<TypingAction>::empty()
    };
    lemma_parts('a', 0, total);
    assert(cs.take(0) =~= Seq::<char>::empty());
    assert(keystrokes(Seq::<char>::empty()) == Seq::<TypingAction>::empty());
    assert(non_newlines(Seq::<char>::empty()) == 0);
    if j < start.len() {
        assert(plan.take(j) =~= Seq::<TypingAction>::empty());
        assert(Seq::new(0, |m: int| ((sent + m + 1) as usize, total)) =~= Seq::<(usize, usize)>::empty());
        return 0;
    }
    if cs.len() == 0 {
        assert(plan == start + line_break());
        assert(plan[j] == line_break()[j - start.len()]);
        return 0;
    }
    let rest = cs.drop_first();
    if cs[0] == '\n' {
        let tail = plan_from(rest, true, sent, total);
        let head = start + line_break();
        assert(plan == head + tail);
        if j < head.len() {
            assert(plan[j] == head[j]);
            assert(head[j] == line_break()[j - start.len()]);
        }
        let j2 = j - head.len();
        assert(tail[j2] == plan[j]);
        let i2 = lemma_stop_prefix(rest, true, sent, total, j2);
        assert(plan.take(j) =~= head + tail.take(j2));
        lemma_reports_add(head, tail.take(j2));
        lemma_reports_add(start, line_break());
        lemma_take_step(cs, i2);
        assert(sends(plan.take(j)) =~= keystrokes(cs.take(i2 + 1)));
        assert(reports(plan.take(j)) =~= Seq::new(
            non_newlines(cs.take(i2 + 1)),
            |m: int| ((sent + m + 1) as usize, total),
        ));
        i2 + 1
    } else {
        let acts = char_actions(cs[0], (sent + 1) as usize, total);
        let tail = plan_from(rest, false, sent + 1, total);
        let h = start.len() as int;
        assert(plan == start + acts + tail);
        if j == h {
            assert(plan.take(j) =~= start);
            assert(Seq::new(0, |m: int| ((sent + m + 1) as usize, total)) =~= Seq::<(usize, usize)>::empty());
            return 0;
        }
        if j < h + 4 {
            assert(plan[j] == acts[j - h]);
        }
        let j2 = j - h - 4;
        assert(tail[j2] == plan[j]);
        let i2 = lemma_stop_prefix(rest, false, sent + 1, total, j2);
        assert(plan.take(j) =~= (start + acts) + tail.take(j2));
        lemma_reports_add(start + acts, tail.take(j2));
        lemma_reports_add(start, acts);
        lemma_parts(cs[0], (sent + 1) as usize, total);
        lemma_take_step(cs, i2);
        assert(sends(plan.take(j)) =~= keystrokes(cs.take(i2 + 1)));
        assert(reports(plan.take(j)) =~= Seq::new(
            non_newlines(cs.take(i2 + 1)),
            |m: int| ((sent + m + 1) as usize, total),
        ));
        i2 + 1
    }
}

/// Whichever stop check says yes, what has reached the window by then is
/// the keystrokes of a beginning of the text, and progress has been reported
/// once for each of its characters that is not a line feed, counting 1, 2,
/// 3, ...: so the number of characters sent is the number of reports.
pub proof fn law_stop_leaves_typed_prefix(text: Seq<char>, j: int)
    requires
        text.len() <= usize::MAX,
        0 <= j < typing_plan_of(text).len(),
        typing_plan_of(text)[j] == TypingAction::CheckCancel,
    ensures
        exists|i: int|
            0 <= i <= text.len() && sends(typing_plan_of(text).take(j)) == #[trigger] keystrokes(
                text.take(i),
            ) && reports(typing_plan_of(text).take(j)) == Seq::new(
                non_newlines(text.take(i)),
                |m: int| ((m + 1) as usize, text.len() as usize),
            ),
{
    let i = lemma_stop_prefix(text, true, 0, text.len() as usize, j);
    assert(Seq::new(non_newlines(text.take(i)), |m: int| ((0 + m + 1) as usize, text.len() as usize))
        =~= Seq::new(non_newlines(text.take(i)), |m: int| ((m + 1) as usize, text.len() as usize)));
}


/// The lines of `cs`, as `split('\n')` gives them: the pieces between line
/// feeds, with an empty line where two line feeds meet or at either end.
pub open spec fn split_lines(cs: Seq<char>) -> Seq<Seq<char>>
    decreases cs.len(),
{
    if cs.len() == 0 {
        seq![Seq::<char>::empty()]
    } else if cs[0] == '\n' {
        seq![Seq::<char>::empty()] + split_lines(cs.drop_first())
    } else {
        let r = split_lines(cs.drop_first());
        r.update(0, seq![cs[0]] + r[0])
    }
}

/// The keystrokes of one line: Tab for a tab, the character itself otherwise.
pub open spec fn line_keys(line: Seq<char>) -> Seq<TypingAction> {
    line.map_values(|c: char| key_for(c))
}

/// Line by line: an empty line sends Return; any other line sends its
/// characters, then Return unless it is the last line.
pub open spec fn line_sends(lines: Seq<Seq<char>>) -> Seq<TypingAction>
    decreases lines.len(),
{
    if lines.len() == 0 {
        Seq::empty()
    } else {
        let l = lines[0];
        (if l.len() == 0 {
            seq![TypingAction::SendKey(VK_RETURN)]
        } else {
            line_keys(l) + (if lines.len() > 1 {
                seq![TypingAction::SendKey(VK_RETURN)]
            } else {
                Seq::empty()
            })
        }) + line_sends(lines.drop_first())
    }
}

proof fn lemma_split_lines(cs: Seq<char>)
    ensures
        split_lines(cs).len() >= 1,
        cs.len() > 0 && cs[0] != '\n' ==> split_lines(cs)[0].len() > 0,
        cs.len() > 0 && cs[0] == '\n' ==> split_lines(cs).len() >= 2,
    decreases cs.len(),
{
    if cs.len() > 0 {
        lemma_split_lines(cs.drop_first());
    }
}

proof fn lemma_line_sends(cs: Seq<char>)
    ensures
        keystrokes(cs) + (if last_line_empty(cs, true) {
            seq![TypingAction::SendKey(VK_RETURN)]
        } else {
            Seq::empty()
        }) == line_sends(split_lines(cs)),
    decreases cs.len(),
{
    let ret = seq![TypingAction::SendKey(VK_RETURN)];
    if cs.len() == 0 {
        let ls = split_lines(cs);
        assert(ls.len() == 1 && ls[0].len() == 0);
        assert(ls.drop_first() =~= Seq::<Seq<char>>::empty());
        assert(line_sends(ls.drop_first()) == Seq::<TypingAction>::empty());
        assert(line_sends(ls) =~= ret + Seq::<TypingAction>::empty());
        assert(keystrokes(cs) + ret =~= ret);
        return;
    }
    let rest = cs.drop_first();
    lemma_line_sends(rest);
    lemma_split_lines(rest);
    let r = split_lines(rest);
    if rest.len() > 0 {
        assert(rest.last() == cs.last());
    }
    if cs[0] == '\n' {
        let ls = split_lines(cs);
        assert(ls[0] == Seq::<char>::empty());
        assert(ls.drop_first() =~= r);
        assert(line_sends(ls) == ret + line_sends(r));
        if rest.len() == 0 {
            assert(keystrokes(rest) == Seq::<TypingAction>::empty());
            assert(keystrokes(cs) =~= ret);
            assert(line_sends(r) == ret + line_sends(r.drop_first()));
            assert(r.drop_first() =~= Seq::<Seq<char>>::empty());
        }
        assert(keystrokes(cs) == ret + keystrokes(rest));
        assert(keystrokes(cs) + (if last_line_empty(cs, true) {
            ret
        } else {
            Seq::empty()
        }) =~= ret + (keystrokes(rest) + (if last_line_empty(rest, true) {
            ret
        } else {
            Seq::empty()
        })));
    } else {
        let c = cs[0];
        let k = seq![key_for(c)];
        let ls = split_lines(cs);
        assert(ls == r.update(0, seq![c] + r[0]));
        assert(ls.len() == r.len());
        assert(ls.drop_first() =~= r.drop_first());
        assert(line_keys(seq![c] + r[0]) =~= k + line_keys(r[0]));
        assert(keystrokes(cs) == k + keystrokes(rest));
        if rest.len() == 0 {
            assert(r.len() == 1);
            assert(r[0] == Seq::<char>::empty());
            assert(line_keys(Seq::<char>::empty()) =~= Seq::<TypingAction>::empty());
            assert(r.drop_first() =~= Seq::<Seq<char>>::empty());
            assert(keystrokes(rest) == Seq::<TypingAction>::empty());
            assert(line_sends(ls) =~= k);
            assert(keystrokes(cs) =~= k);
        } else {
            if r[0].len() == 0 {
                assert(rest[0] == '\n');
                assert(line_sends(r) == ret + line_sends(r.drop_first()));
                assert(line_sends(ls) =~= k + line_sends(r));
            } else {
                assert(line_sends(ls) =~= k + line_sends(r));
            }
            assert(keystrokes(cs) + (if last_line_empty(cs, true) {
                ret
            } else {
                Seq::empty()
            }) =~= k + (keystrokes(rest) + (if last_line_empty(rest, true) {
                ret
            } else {
                Seq::empty()
            })));
        }
    }
}

/// Line by line, what reaches the window is: for each line of the text
/// (`split('\n')`), Return alone when the line is empty; otherwise its
/// characters (a tab as the Tab key), then Return unless it is the last line.
pub proof fn law_keystrokes_line_by_line(text: Seq<char>)
    requires
        text.len() <= usize::MAX,
    ensures
        sends(typing_plan_of(text)) == line_sends(split_lines(text)),
{
    law_keystrokes_follow_text(text);
    lemma_line_sends(text);
}


/// The report of one action: its pair when it is a progress report.
proof fn lemma_report_step(text: Seq<char>, pos: int)
    requires
        text.len() <= usize::MAX,
        0 <= pos < typing_plan_of(text).len(),
    ensures
        typing_plan_of(text)[pos] matches TypingAction::Progress(s, _) ==> reports(
            typing_plan_of(text).take(pos + 1),
        ).len() == s && s == reports(typing_plan_of(text).take(pos)).len() + 1,
        !(typing_plan_of(text)[pos] is Progress) ==> reports(typing_plan_of(text).take(pos + 1))
            == reports(typing_plan_of(text).take(pos)),
        reports(typing_plan_of(text).take(pos + 1)).len() <= usize::MAX,
{
    let plan = typing_plan_of(text);
    let a = plan[pos];
    let before = plan.take(pos);
    let upto = plan.take(pos + 1);
    assert(upto =~= before + seq![a]);
    lemma_reports_add(before, seq![a]);
    assert(seq![a].drop_first() =~= Seq::<TypingAction>::empty());
    assert(reports(Seq::<TypingAction>::empty()) == Seq::<(usize, usize)>::empty());
    assert(plan =~= upto + plan.skip(pos + 1));
    lemma_reports_add(upto, plan.skip(pos + 1));
    law_progress_counts_characters(text);
    lemma_counts_bounded(text);
    let l = reports(before).len();
    let rest = plan.skip(pos + 1);
    assert(reports(plan) == reports(upto + rest));
    assert(reports(plan) == reports(upto) + reports(rest));
    assert(reports(plan).len() == non_newlines(text));
    assert(reports(upto).len() <= reports(plan).len());
    if let TypingAction::Progress(x, y) = a {
        assert(reports(seq![a]) =~= seq![(x, y)]);
        assert(reports(plan)[l as int] == (x, y));
        assert(l < non_newlines(text));
    }
}

/// A run of typing: the plan of a text, carried out one action at a time,
/// with the number of characters sent so far. A stop check that says yes
/// stops the run there.
pub struct TypingRun {
    plan: Vec<TypingAction>,
    text: Ghost<Seq<char>>,
    at: (usize, usize),
    stopped: bool,
}

impl TypingRun {
    #[verifier::type_invariant]
    spec fn well_formed(self) -> bool {
        &&& self.text@.len() <= usize::MAX
        &&& self.plan@ == typing_plan_of(self.text@)
        &&& self.at.0 <= self.plan@.len()
        &&& self.at.1 == reports(self.plan@.take(self.at.0 as int)).len()
        &&& self.stopped ==> self.at.0 < self.plan@.len() && self.plan@[self.at.0 as int]
            == TypingAction::CheckCancel
    }

    /// The text being typed.
    pub closed spec fn text(self) -> Seq<char> {
        self.text@
    }

    /// How many actions of the plan are done.
    pub closed spec fn position(self) -> nat {
        self.at.0 as nat
    }

    /// Whether a stop check said yes.
    pub closed spec fn is_stopped(self) -> bool {
        self.stopped
    }

    /// The actions of the whole run.
    pub open spec fn plan(self) -> Seq<TypingAction> {
        typing_plan_of(self.text())
    }

    /// A run at the start of the plan of `text`.
    pub fn new(text: &str) -> (r: TypingRun)
        ensures
            r.text() == text@,
            r.position() == 0,
            !r.is_stopped(),
    {
        let plan = typing_plan(text);
        proof {
            assert(plan@.take(0) =~= Seq::<TypingAction>::empty());
            assert(reports(Seq::<TypingAction>::empty()) == Seq::<(usize, usize)>::empty());
        }
        let ghost t = text@;
        let count = chars_of(text).len();
        assert(t.len() == count);
        TypingRun { plan, text: Ghost(t), at: (0, 0), stopped: false }
    }

    /// The next action to carry out; `None` once the run is stopped or the
    /// plan is done.
    pub fn current(&self) -> (a: Option<TypingAction>)
        ensures
            a == (if self.is_stopped() || self.position() >= self.plan().len() {
                None
            } else {
                Some(self.plan()[self.position() as int])
            }),
    {
        proof {
            use_type_invariant(self);
        }
        if self.stopped || self.at.0 >= self.plan.len() {
            None
        } else {
            Some(self.plan[self.at.0])
        }
    }

    /// Marks the current action done. At a stop check, `stop` says whether
    /// to stop: the run then ends there; elsewhere `stop` is not read. A run
    /// that is stopped or done stays as it is.
    pub fn advance(&mut self, stop: bool)
        ensures
            final(self).text() == old(self).text(),
            old(self).is_stopped() || old(self).position() >= old(self).plan().len() ==> (
            final(self).position() == old(self).position() && final(self).is_stopped()
                == old(self).is_stopped()),
            !old(self).is_stopped() && old(self).position() < old(self).plan().len() ==> (if stop
                && old(self).plan()[old(self).position() as int] == TypingAction::CheckCancel {
                final(self).is_stopped() && final(self).position() == old(self).position()
            } else {
                !final(self).is_stopped() && final(self).position() == old(self).position() + 1
            }),
        no_unwind
    {
        proof {
            use_type_invariant(&*self);
        }
        if self.stopped || self.at.0 >= self.plan.len() {
            return;
        }
        let pos = self.at.0;
        let a = self.plan[pos];
        proof {
            lemma_report_step(self.text@, pos as int);
        }
        if stop && a == TypingAction::CheckCancel {
            self.stopped = true;
        } else {
            let sent = match a {
                TypingAction::Progress(s, _) => s,
                _ => self.at.1,
            };
            self.at = (pos + 1, sent);
        }
    }

    /// The number of characters sent so far: the number of progress reports
    /// among the actions done.
    pub fn chars_sent(&self) -> (n: usize)
        ensures
            n == reports(self.plan().take(self.position() as int)).len(),
            self.position() <= self.plan().len(),
            self.text().len() <= usize::MAX,
            self.is_stopped() ==> self.plan()[self.position() as int] == TypingAction::CheckCancel,
    {
        proof {
            use_type_invariant(self);
        }
        self.at.1
    }
}


proof fn lemma_keystrokes_each(cs: Seq<char>)
    ensures
        keystrokes(cs).len() == cs.len(),
        forall|i: int|
            0 <= i < cs.len() ==> #[trigger] keystrokes(cs)[i] == (if cs[i] == '\n' {
                TypingAction::SendKey(0x0Du32)
            } else if cs[i] == '\t' {
                TypingAction::SendKey(0x09u32)
            } else {
                TypingAction::SendChar(cs[i])
            }),
    decreases cs.len(),
{
    if cs.len() > 0 {
        lemma_keystrokes_each(cs.drop_first());
        assert forall|i: int| 0 < i < cs.len() implies #[trigger] keystrokes(cs)[i] == keystrokes(
            cs.drop_first(),
        )[i - 1] && cs[i] == cs.drop_first()[i - 1] by {}
    }
}

/// Every character of the text reaches the window in its place: a line feed
/// as the Return key (0x0D), a tab as the Tab key (0x09), and any other
/// character as a character message carrying that same character. One more
/// Return follows when the last line is empty.
pub proof fn law_each_character_sent_as_itself(text: Seq<char>)
    requires
        text.len() <= usize::MAX,
    ensures
        sends(typing_plan_of(text)).len() == text.len() + (if text.len() == 0 || text.last()
            == '\n' {
            1int
        } else {
            0int
        }),
        forall|i: int|
            0 <= i < text.len() ==> #[trigger] sends(typing_plan_of(text))[i] == (if text[i]
                == '\n' {
                TypingAction::SendKey(0x0Du32)
            } else if text[i] == '\t' {
                TypingAction::SendKey(0x09u32)
            } else {
                TypingAction::SendChar(text[i])
            }),
        text.len() == 0 || text.last() == '\n' ==> sends(typing_plan_of(text))[text.len() as int]
            == TypingAction::SendKey(0x0Du32),
{
    law_keystrokes_follow_text(text);
    lemma_keystrokes_each(text);
    let k = keystrokes(text);
    assert forall|i: int| 0 <= i < text.len() implies #[trigger] sends(typing_plan_of(text))[i]
        == k[i] by {}
}

} // verus!
