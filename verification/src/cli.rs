//! Command-line mode: argument parsing and the texts the command line prints.
//!
//! Exit codes: 0 success (help and snippet listing included); 1 input error
//! (empty text, unreadable file, unknown snippet, no input source); 2 usage
//! error or emergency stop (mouse in a screen corner); 3 interrupted by Ctrl+C.
use vstd::prelude::*;
use crate::numbers::{float_text_valid, i64_text_value, is_float_text, parse_i64};
use crate::text::{
    is_blank, text_is_blank, decimal_text, first_index_of, lemma_first_index_of, push_char, push_decimal, push_text,
    same_text,
};
use crate::config::{get_snippet, lookup, snippet_at, snippet_count, snippet_entries, Snippets};

verus! {

broadcast use vstd::string::group_string_axioms;

/// The command-line options after parsing.
///
/// `interval` and `line_delay` hold the seconds as written on the command
/// line; they are only kept when they are texts that parse as floats.
#[derive(Debug, Clone)]
pub struct CliOptions {
    pub text: Option<String>,
    pub file: Option<String>,
    pub snippet: Option<String>,
    pub interval: Option<String>,
    pub line_delay: Option<String>,
    pub countdown: Option<i64>,
    pub no_failsafe: bool,
    pub list_snippets: bool,
    pub help: bool,
}

/// The options as values.
pub struct CliOptionsModel {
    pub text: Option<Seq<char>>,
    pub file: Option<Seq<char>>,
    pub snippet: Option<Seq<char>>,
    pub interval: Option<Seq<char>>,
    pub line_delay: Option<Seq<char>>,
    pub countdown: Option<i64>,
    pub no_failsafe: bool,
    pub list_snippets: bool,
    pub help: bool,
}

pub open spec fn text_view(o: Option<String>) -> Option<Seq<char>> {
    match o {
        Some(s) => Some(s@),
        None => None,
    }
}

impl View for CliOptions {
    type V = CliOptionsModel;

    open spec fn view(&self) -> CliOptionsModel {
        CliOptionsModel {
            text: text_view(self.text),
            file: text_view(self.file),
            snippet: text_view(self.snippet),
            interval: text_view(self.interval),
            line_delay: text_view(self.line_delay),
            countdown: self.countdown,
            no_failsafe: self.no_failsafe,
            list_snippets: self.list_snippets,
            help: self.help,
        }
    }
}

/// No option given.
pub open spec fn no_options() -> CliOptionsModel {
    CliOptionsModel {
        text: None,
        file: None,
        snippet: None,
        interval: None,
        line_delay: None,
        countdown: None,
        no_failsafe: false,
        list_snippets: false,
        help: false,
    }
}

impl CliOptions {
    /// The options when none is given.
    pub fn empty() -> (r: CliOptions)
        ensures
            r@ == no_options(),
    {
        CliOptions {
            text: None,
            file: None,
            snippet: None,
            interval: None,
            line_delay: None,
            countdown: None,
            no_failsafe: false,
            list_snippets: false,
            help: false,
        }
    }
}

impl Default for CliOptions {
    fn default() -> (r: CliOptions)
        ensures
            r@ == no_options(),
    {
        CliOptions::empty()
    }
}

/// The options that take a value.
#[derive(Clone, Copy, Debug, PartialEq, Eq, Structural)]
pub enum ValueFlag {
    Text,
    File,
    Snippet,
    Interval,
    LineDelay,
    Countdown,
}

/// The value-taking option that an argument names exactly.
pub open spec fn exact_value_flag(a: Seq<char>) -> Option<ValueFlag> {
    if a == "-t"@ || a == "--text"@ {
        Some(ValueFlag::Text)
    } else if a == "-f"@ || a == "--file"@ {
        Some(ValueFlag::File)
    } else if a == "-s"@ || a == "--snippet"@ {
        Some(ValueFlag::Snippet)
    } else if a == "--interval"@ {
        Some(ValueFlag::Interval)
    } else if a == "--line-delay"@ {
        Some(ValueFlag::LineDelay)
    } else if a == "--countdown"@ {
        Some(ValueFlag::Countdown)
    } else {
        None
    }
}

/// The value-taking option that the name of a `--name=value` argument names.
pub open spec fn named_value_flag(name: Seq<char>) -> Option<ValueFlag> {
    if name == "text"@ {
        Some(ValueFlag::Text)
    } else if name == "file"@ {
        Some(ValueFlag::File)
    } else if name == "snippet"@ {
        Some(ValueFlag::Snippet)
    } else if name == "interval"@ {
        Some(ValueFlag::Interval)
    } else if name == "line-delay"@ {
        Some(ValueFlag::LineDelay)
    } else if name == "countdown"@ {
        Some(ValueFlag::Countdown)
    } else {
        None
    }
}

pub open spec fn msg_missing_value(flag: Seq<char>) -> Seq<char> {
    "参数 "@ + flag + " 需要一个值"@
}

pub open spec fn msg_bad_seconds(flag: Seq<char>, v: Seq<char>) -> Seq<char> {
    "参数 "@ + flag + " 无效: "@ + v + "（应为秒数）"@
}

pub open spec fn msg_bad_countdown(v: Seq<char>) -> Seq<char> {
    "参数 --countdown 无效: "@ + v + "（应为整数秒）"@
}

pub open spec fn msg_unrecognized(a: Seq<char>) -> Seq<char> {
    "无法识别的参数: "@ + a
}

pub open spec fn msg_exclusive() -> Seq<char> {
    "参数 --text、--file、--snippet 互斥，只能指定其一"@
}

/// Records the value of a value-taking option; numbers that do not parse
/// are refused with their message.
pub open spec fn apply_value(o: CliOptionsModel, f: ValueFlag, v: Seq<char>) -> Result<
    CliOptionsModel,
    Seq<char>,
> {
    match f {
        ValueFlag::Text => Ok(CliOptionsModel { text: Some(v), ..o }),
        ValueFlag::File => Ok(CliOptionsModel { file: Some(v), ..o }),
        ValueFlag::Snippet => Ok(CliOptionsModel { snippet: Some(v), ..o }),
        ValueFlag::Interval => if is_float_text(v) {
            Ok(CliOptionsModel { interval: Some(v), ..o })
        } else {
            Err(msg_bad_seconds("--interval"@, v))
        },
        ValueFlag::LineDelay => if is_float_text(v) {
            Ok(CliOptionsModel { line_delay: Some(v), ..o })
        } else {
            Err(msg_bad_seconds("--line-delay"@, v))
        },
        ValueFlag::Countdown => match i64_text_value(v) {
            Some(n) => Ok(CliOptionsModel { countdown: Some(n), ..o }),
            None => Err(msg_bad_countdown(v)),
        },
    }
}

/// How many of the three input sources are given.
pub open spec fn source_count(o: CliOptionsModel) -> int {
    (if o.text is Some { 1int } else { 0int }) + (if o.file is Some { 1int } else { 0int }) + (
    if o.snippet is Some {
        1int
    } else {
        0int
    })
}

/// The check made once every argument is read: the sources exclude each other.
pub open spec fn finish_options(o: CliOptionsModel) -> Result<CliOptionsModel, Seq<char>> {
    if source_count(o) > 1 {
        Err(msg_exclusive())
    } else {
        Ok(o)
    }
}

/// Reads the remaining arguments `rest` into the options `o`.
pub open spec fn parse_rest(rest: Seq<Seq<char>>, o: CliOptionsModel) -> Result<
    CliOptionsModel,
    Seq<char>,
>
    decreases rest.len(),
{
    if rest.len() == 0 {
        finish_options(o)
    } else {
        let a = rest[0];
        if a == "-h"@ || a == "--help"@ {
            parse_rest(rest.drop_first(), CliOptionsModel { help: true, ..o })
        } else if a == "--list-snippets"@ {
            parse_rest(rest.drop_first(), CliOptionsModel { list_snippets: true, ..o })
        } else if a == "--no-failsafe"@ {
            parse_rest(rest.drop_first(), CliOptionsModel { no_failsafe: true, ..o })
        } else if exact_value_flag(a) is Some {
            let f = exact_value_flag(a)->0;
            match first_index_of(a, '=') {
                Some(k) => match apply_value(o, f, a.skip(k + 1)) {
                    Ok(o2) => parse_rest(rest.drop_first(), o2),
                    Err(m) => Err(m),
                },
                None => if rest.len() < 2 {
                    Err(msg_missing_value(a))
                } else {
                    match apply_value(o, f, rest[1]) {
                        Ok(o2) => parse_rest(rest.skip(2), o2),
                        Err(m) => Err(m),
                    }
                },
            }
        } else if a.len() >= 2 && a[0] == '-' && a[1] == '-' && first_index_of(a.skip(2), '=') is Some {
            let long = a.skip(2);
            let k = first_index_of(long, '=')->0;
            match named_value_flag(long.take(k)) {
                Some(f) => match apply_value(o, f, long.skip(k + 1)) {
                    Ok(o2) => parse_rest(rest.drop_first(), o2),
                    Err(m) => Err(m),
                },
                None => Err(msg_unrecognized(a)),
            }
        } else {
            Err(msg_unrecognized(a))
        }
    }
}

/// The arguments as character sequences.
pub open spec fn arg_views(args: Seq<String>) -> Seq<Seq<char>> {
    args.map_values(|s: String| s@)
}

/// What parsing the argument list gives: options, or the message of the
/// first problem found.
pub open spec fn parse_result(args: Seq<Seq<char>>) -> Result<CliOptionsModel, Seq<char>> {
    parse_rest(args, no_options())
}

pub open spec fn options_result_view(r: Result<CliOptions, String>) -> Result<
    CliOptionsModel,
    Seq<char>,
> {
    match r {
        Ok(o) => Ok(o@),
        Err(m) => Err(m@),
    }
}

pub open spec fn text_result_view(r: Result<String, String>) -> Result<Seq<char>, Seq<char>> {
    match r {
        Ok(o) => Ok(o@),
        Err(m) => Err(m@),
    }
}

fn message_missing_value(flag: &str) -> (m: String)
    ensures
        m@ == msg_missing_value(flag@),
{
    let mut m = String::from_str("参数 ");
    push_text(&mut m, flag);
    push_text(&mut m, " 需要一个值");
    m
}

fn message_bad_seconds(flag: &str, v: &str) -> (m: String)
    ensures
        m@ == msg_bad_seconds(flag@, v@),
{
    let mut m = String::from_str("参数 ");
    push_text(&mut m, flag);
    push_text(&mut m, " 无效: ");
    push_text(&mut m, v);
    push_text(&mut m, "（应为秒数）");
    m
}

fn message_bad_countdown(v: &str) -> (m: String)
    ensures
        m@ == msg_bad_countdown(v@),
{
    let mut m = String::from_str("参数 --countdown 无效: ");
    push_text(&mut m, v);
    push_text(&mut m, "（应为整数秒）");
    m
}

fn message_unrecognized(a: &str) -> (m: String)
    ensures
        m@ == msg_unrecognized(a@),
{
    let mut m = String::from_str("无法识别的参数: ");
    push_text(&mut m, a);
    m
}

/// Position of the first `c` in `s`.
pub fn find_char(s: &str, c: char) -> (r: Option<usize>)
    ensures
        r matches Some(k) ==> first_index_of(s@, c) == Some(k as int),
        r is None ==> first_index_of(s@, c) is None,
{
    let v = crate::text::chars_of(s);
    let mut i: usize = 0;
    while i < v.len()
        invariant
            v@ == s@,
            i <= v@.len(),
            forall|j: int| 0 <= j < i ==> v@[j] != c,
        decreases v@.len() - i,
    {
        if v[i] == c {
            proof {
                lemma_first_index_of(s@, c);
                if first_index_of(s@, c) is None {
                    assert(s@[i as int] != c);
                } else {
                    let k = first_index_of(s@, c)->0;
                    if k > i {
                        assert(s@[i as int] != c);
                    }
                }
            }
            return Some(i);
        }
        i = i + 1;
    }
    proof {
        lemma_first_index_of(s@, c);
        if first_index_of(s@, c) is Some {
            let k = first_index_of(s@, c)->0;
            assert(v@[k] == c);
        }
    }
    None
}

/// The value of the option `args[*i]`: the text after its first `=` when it
/// holds one, else the next argument (and `*i` then moves to it). The error
/// names `flag` when there is no next argument.
pub fn take_value(args: &[String], i: &mut usize, flag: &str) -> (r: Result<String, String>)
    requires
        *old(i) < args@.len(),
    ensures
        ({
            let a = args@[*old(i) as int]@;
            match first_index_of(a, '=') {
                Some(k) => *final(i) == *old(i) && text_result_view(r) == Ok::<Seq<char>, Seq<char>>(
                    a.skip(k + 1),
                ),
                None => *final(i) == *old(i) + 1 && if *old(i) + 1 < args@.len() {
                    text_result_view(r) == Ok::<Seq<char>, Seq<char>>(args@[*old(i) + 1]@)
                } else {
                    text_result_view(r) == Err::<Seq<char>, Seq<char>>(msg_missing_value(flag@))
                },
            }
        }),
{
    let a = args[*i].as_str();
    match find_char(a, '=') {
        Some(eq) => {
            proof {
                lemma_first_index_of(a@, '=');
            }
            let len = a.unicode_len();
            let rest = a.substring_char(eq + 1, len);
            assert(rest@ == a@.skip(eq + 1));
            Ok(String::from_str(rest))
        },
        None => {
            *i = *i + 1;
            if *i < args.len() {
                Ok(args[*i].clone())
            } else {
                Err(message_missing_value(flag))
            }
        },
    }
}

fn exact_value_flag_of(a: &str) -> (r: Option<ValueFlag>)
    ensures
        r == exact_value_flag(a@),
{
    if same_text(a, "-t") || same_text(a, "--text") {
        Some(ValueFlag::Text)
    } else if same_text(a, "-f") || same_text(a, "--file") {
        Some(ValueFlag::File)
    } else if same_text(a, "-s") || same_text(a, "--snippet") {
        Some(ValueFlag::Snippet)
    } else if same_text(a, "--interval") {
        Some(ValueFlag::Interval)
    } else if same_text(a, "--line-delay") {
        Some(ValueFlag::LineDelay)
    } else if same_text(a, "--countdown") {
        Some(ValueFlag::Countdown)
    } else {
        None
    }
}

fn named_value_flag_of(name: &str) -> (r: Option<ValueFlag>)
    ensures
        r == named_value_flag(name@),
{
    if same_text(name, "text") {
        Some(ValueFlag::Text)
    } else if same_text(name, "file") {
        Some(ValueFlag::File)
    } else if same_text(name, "snippet") {
        Some(ValueFlag::Snippet)
    } else if same_text(name, "interval") {
        Some(ValueFlag::Interval)
    } else if same_text(name, "line-delay") {
        Some(ValueFlag::LineDelay)
    } else if same_text(name, "countdown") {
        Some(ValueFlag::Countdown)
    } else {
        None
    }
}

/// Records the value `v` of option `f`, as `apply_value` says.
fn set_value(opts: &mut CliOptions, f: ValueFlag, v: String) -> (r: Result<(), String>)
    ensures
        match apply_value(old(opts)@, f, v@) {
            Ok(o) => r is Ok && final(opts)@ == o,
            Err(m) => r matches Err(e) && e@ == m,
        },
{
    match f {
        ValueFlag::Text => {
            opts.text = Some(v);
            Ok(())
        },
        ValueFlag::File => {
            opts.file = Some(v);
            Ok(())
        },
        ValueFlag::Snippet => {
            opts.snippet = Some(v);
            Ok(())
        },
        ValueFlag::Interval => {
            if float_text_valid(v.as_str()) {
                opts.interval = Some(v);
                Ok(())
            } else {
                Err(message_bad_seconds("--interval", v.as_str()))
            }
        },
        ValueFlag::LineDelay => {
            if float_text_valid(v.as_str()) {
                opts.line_delay = Some(v);
                Ok(())
            } else {
                Err(message_bad_seconds("--line-delay", v.as_str()))
            }
        },
        ValueFlag::Countdown => {
            match parse_i64(v.as_str()) {
                Some(n) => {
                    opts.countdown = Some(n);
                    Ok(())
                },
                None => Err(message_bad_countdown(v.as_str())),
            }
        },
    }
}

/// Parses the command-line arguments (without the program name and without
/// the `--cli` switch). The error is a message ready to print.
pub fn parse_args(args: &[String]) -> (r: Result<CliOptions, String>)
    ensures
        options_result_view(r) == parse_result(arg_views(args@)),
{
    let ghost views = arg_views(args@);
    let mut opts = CliOptions::empty();
    let mut i: usize = 0;
    assert(views.skip(0) == views);
    while i < args.len()
        invariant
            i <= args@.len(),
            views == arg_views(args@),
            views.len() == args@.len(),
            parse_rest(views.skip(i as int), opts@) == parse_result(views),
        decreases args@.len() - i,
    {
        let ghost rest = views.skip(i as int);
        let ghost start = i;
        assert(rest[0] == args@[i as int]@);
        assert(rest.drop_first() == views.skip(i + 1));
        let arg = args[i].as_str();
        if same_text(arg, "-h") || same_text(arg, "--help") {
            opts.help = true;
            i = i + 1;
        } else if same_text(arg, "--list-snippets") {
            opts.list_snippets = true;
            i = i + 1;
        } else if same_text(arg, "--no-failsafe") {
            opts.no_failsafe = true;
            i = i + 1;
        } else {
            match exact_value_flag_of(arg) {
                Some(f) => {
                    let v = match take_value(args, &mut i, arg) {
                        Ok(v) => v,
                        Err(m) => {
                            return Err(m);
                        },
                    };
                    proof {
                        if i == start + 1 {
                            assert(rest[1] == args@[i as int]@);
                            assert(rest.skip(2) == views.skip(i + 1));
                        }
                    }
                    match set_value(&mut opts, f, v) {
                        Ok(()) => {},
                        Err(m) => {
                            return Err(m);
                        },
                    }
                    i = i + 1;
                },
                None => {
                    let len = arg.unicode_len();
                    if len >= 2 && arg.get_char(0) == '-' && arg.get_char(1) == '-' {
                        let long = arg.substring_char(2, len);
                        assert(long@ == arg@.skip(2));
                        match find_char(long, '=') {
                            Some(k) => {
                                let long_len = long.unicode_len();
                                proof {
                                    lemma_first_index_of(long@, '=');
                                }
                                let name = long.substring_char(0, k);
                                let value = long.substring_char(k + 1, long_len);
                                assert(name@ == long@.take(k as int));
                                assert(value@ == long@.skip(k + 1));
                                match named_value_flag_of(name) {
                                    Some(f) => {
                                        match set_value(&mut opts, f, String::from_str(value)) {
                                            Ok(()) => {},
                                            Err(m) => {
                                                return Err(m);
                                            },
                                        }
                                        i = i + 1;
                                    },
                                    None => {
                                        return Err(message_unrecognized(arg));
                                    },
                                }
                            },
                            None => {
                                return Err(message_unrecognized(arg));
                            },
                        }
                    } else {
                        return Err(message_unrecognized(arg));
                    }
                },
            }
        }
    }
    assert(views.skip(i as int) == Seq::<Seq<char>>::empty());
    let mut sources: usize = 0;
    if opts.text.is_some() {
        sources = sources + 1;
    }
    if opts.file.is_some() {
        sources = sources + 1;
    }
    if opts.snippet.is_some() {
        sources = sources + 1;
    }
    if sources > 1 {
        return Err(String::from_str("参数 --text、--file、--snippet 互斥，只能指定其一"));
    }
    Ok(opts)
}

pub open spec fn is_cli_switch(a: Seq<char>) -> bool {
    a == "--cli"@
}

/// Arguments other than the `--cli` switch.
pub open spec fn not_cli_switch() -> spec_fn(Seq<char>) -> bool {
    |a: Seq<char>| !is_cli_switch(a)
}

/// `args` without the `--cli` switch, in the same order.
pub open spec fn without_cli_switch(args: Seq<Seq<char>>) -> Seq<Seq<char>> {
    args.filter(not_cli_switch())
}

/// Command-line mode is asked for by `--cli` anywhere among the arguments;
/// that switch is then taken out of the arguments before they are parsed.
/// `None` when command-line mode is not asked for.
pub fn split_entry_flag(args: &[String]) -> (r: Option<Vec<String>>)
    ensures
        r is Some <==> arg_views(args@).contains("--cli"@),
        r matches Some(rest) ==> arg_views(rest@) == without_cli_switch(arg_views(args@)),
{
    let ghost views = arg_views(args@);
    let ghost p = not_cli_switch();
    let mut rest: Vec<String> = Vec::new();
    let mut found = false;
    let mut i: usize = 0;
    assert(views.take(0).filter(p) == Seq::<Seq<char>>::empty()) by {
        reveal_with_fuel(Seq::<_>::filter, 1);
    }
    while i < args.len()
        invariant
            views == arg_views(args@),
            views.len() == args@.len(),
            p == not_cli_switch(),
            i <= args@.len(),
            arg_views(rest@) == views.take(i as int).filter(p),
            found == views.take(i as int).contains("--cli"@),
        decreases args@.len() - i,
    {
        reveal_with_fuel(Seq::<_>::filter, 1);
        let ghost before = rest@;
        assert(views.take(i + 1).drop_last() == views.take(i as int));
        assert(views.take(i + 1).last() == args@[i as int]@);
        if same_text(args[i].as_str(), "--cli") {
            found = true;
            assert(views.take(i + 1)[i as int] == "--cli"@);
        } else {
            rest.push(args[i].clone());
            assert(arg_views(rest@) == arg_views(before).push(args@[i as int]@));
            proof {
                if views.take(i + 1).contains("--cli"@) {
                    let j = choose|j: int| 0 <= j < i + 1 && #[trigger] views.take(i + 1)[j] == "--cli"@;
                    assert(views.take(i as int)[j] == "--cli"@);
                }
            }
        }
        proof {
            if found && !(views.take(i as int).contains("--cli"@)) {
                assert(views.take(i + 1)[i as int] == "--cli"@);
            }
            if views.take(i as int).contains("--cli"@) {
                let j = choose|j: int| 0 <= j < i && #[trigger] views.take(i as int)[j] == "--cli"@;
                assert(views.take(i + 1)[j] == "--cli"@);
            }
        }
        i = i + 1;
    }
    assert(views.take(args@.len() as int) == views);
    if found {
        Some(rest)
    } else {
        None
    }
}

/// The usage text of command-line mode.
pub const HELP_TEXT: &'static str = "\
AutoTyper - 智能字符输入助手

用法: AutoTyper --cli [选项]

输入源（三者互斥，必选其一）:
  -t, --text <文本>        直接指定要输入的文本
  -f, --file <路径>        从文件读取要输入的文本
  -s, --snippet <名称>     使用已保存的文本片段名称

选项:
  --interval <秒>          字符间隔，默认 0.01
  --line-delay <秒>        行间延迟，默认 0.05
  --countdown <秒>         启动前倒计时，默认 5
  --no-failsafe            禁用鼠标紧急停止
  --list-snippets          列出所有已保存的文本片段
  -h, --help               显示此帮助信息

使用示例:
  AutoTyper --cli --text \"Hello, World!\"
  AutoTyper --cli --file answer.py
  AutoTyper --cli --file answer.py --interval 0.02 --countdown 3
  AutoTyper --cli --snippet \"常用代码段\"
";

/// The usage text of command-line mode.
pub fn help_text() -> (r: String)
    ensures
        r@ == HELP_TEXT@,
{
    String::from_str(HELP_TEXT)
}

/// `n` copies of `c`.
pub open spec fn repeated(c: char, n: nat) -> Seq<char> {
    Seq::new(n, |i: int| c)
}

fn push_repeated(s: &mut String, c: char, n: usize)
    ensures
        final(s)@ == old(s)@ + repeated(c, n as nat),
{
    let mut i: usize = 0;
    while i < n
        invariant
            i <= n,
            s@ == old(s)@ + repeated(c, i as nat),
        decreases n - i,
    {
        push_char(s, c);
        i = i + 1;
        assert(repeated(c, i as nat) == repeated(c, (i - 1) as nat).push(c));
    }
}

/// The rule line around the snippet list: 40 dashes.
pub open spec fn rule_line() -> Seq<char> {
    repeated('-', 40)
}

/// A text on one line: line feeds become spaces.
pub open spec fn flattened(c: Seq<char>) -> Seq<char> {
    c.map_values(|ch: char| if ch == '\n' { ' ' } else { ch })
}

/// The first 50 characters of the flattened content, and `...` when it is longer.
pub open spec fn preview(c: Seq<char>) -> Seq<char> {
    let f = flattened(c);
    if f.len() > 50 {
        f.take(50) + "..."@
    } else {
        f
    }
}

/// One line of the snippet list.
pub open spec fn snippet_line(entry: (Seq<char>, Seq<char>)) -> Seq<char> {
    "  • "@ + entry.0 + ": "@ + preview(entry.1) + "\n"@
}

pub open spec fn snippet_lines(e: Seq<(Seq<char>, Seq<char>)>) -> Seq<char>
    decreases e.len(),
{
    if e.len() == 0 {
        Seq::empty()
    } else {
        snippet_lines(e.drop_last()) + snippet_line(e.last())
    }
}

/// The listing of saved snippets that `--list-snippets` prints.
pub open spec fn snippet_listing(e: Seq<(Seq<char>, Seq<char>)>) -> Seq<char> {
    if e.len() == 0 {
        "暂无保存的文本片段。"@
    } else {
        "已保存的文本片段（共 "@ + decimal_text(e.len()) + " 个）：\n"@ + rule_line() + "\n"@
            + snippet_lines(e) + rule_line()
    }
}

fn push_snippet_line(out: &mut String, name: &str, content: &str)
    ensures
        final(out)@ == old(out)@ + snippet_line((name@, content@)),
{
    push_text(out, "  • ");
    push_text(out, name);
    push_text(out, ": ");
    let v = crate::text::chars_of(content);
    let ghost f = flattened(content@);
    let mut i: usize = 0;
    while i < v.len() && i < 50
        invariant
            v@ == content@,
            f == flattened(content@),
            f.len() == v@.len(),
            i <= v@.len(),
            i <= 50,
            out@ == old(out)@ + "  • "@ + name@ + ": "@ + f.take(i as int),
        decreases v@.len() - i,
    {
        let c = if v[i] == '\n' {
            ' '
        } else {
            v[i]
        };
        assert(f[i as int] == c);
        push_char(out, c);
        assert(f.take(i + 1) == f.take(i as int).push(c));
        i = i + 1;
    }
    if v.len() > 50 {
        push_text(out, "...");
    } else {
        assert(f.take(i as int) == f);
    }
    push_text(out, "\n");
}

/// Renders the snippet list.
pub fn format_snippet_list(snippets: &Snippets) -> (r: String)
    ensures
        r@ == snippet_listing(snippet_entries(*snippets)),
{
    let n = snippet_count(snippets);
    if n == 0 {
        return String::from_str("暂无保存的文本片段。");
    }
    let ghost e = snippet_entries(*snippets);
    let mut out = String::from_str("已保存的文本片段（共 ");
    push_decimal(&mut out, n as u128);
    push_text(&mut out, " 个）：\n");
    push_repeated(&mut out, '-', 40);
    push_text(&mut out, "\n");
    let ghost head = out@;
    let mut i: usize = 0;
    assert(e.take(0) == Seq::<(Seq<char>, Seq<char>)>::empty());
    while i < n
        invariant
            n == e.len(),
            e == snippet_entries(*snippets),
            i <= n,
            out@ == head + snippet_lines(e.take(i as int)),
        decreases n - i,
    {
        let (name, content) = snippet_at(snippets, i);
        push_snippet_line(&mut out, name.as_str(), content.as_str());
        assert(e.take(i + 1).drop_last() == e.take(i as int));
        i = i + 1;
    }
    assert(e.take(n as int) == e);
    push_repeated(&mut out, '-', 40);
    out
}

/// Filled cells for `current` of `total`: `30 * current / total`, at most 30;
/// none when `total` is 0.
pub open spec fn filled_cells(current: nat, total: nat) -> nat {
    if total > 0 {
        let f = 30 * current / total;
        if f > 30 {
            30
        } else {
            f
        }
    } else {
        0
    }
}

/// The progress line: a bar of 30 cells, `█` filled and `░` empty, then the
/// percentage text as given, then `%`.
pub open spec fn progress_text(current: nat, total: nat, percent: Seq<char>) -> Seq<char> {
    let f = filled_cells(current, total);
    "["@ + repeated('█', f) + repeated('░', (30 - f) as nat) + "] "@ + percent + "%"@
}

/// Renders the progress line for `current` of `total` characters. The bar
/// is computed here; the percentage comes as text, written with one decimal
/// by the caller from the floating-point ratio.
pub fn progress_line(current: usize, total: usize, percent: &str) -> (r: String)
    ensures
        r@ == progress_text(current as nat, total as nat, percent@),
{
    let filled: usize = if total > 0 {
        let f: u128 = (30 * (current as u128)) / (total as u128);
        if f > 30 {
            30
        } else {
            f as usize
        }
    } else {
        0
    };
    let mut out = String::from_str("[");
    push_repeated(&mut out, '█', filled);
    push_repeated(&mut out, '░', 30 - filled);
    push_text(&mut out, "] ");
    push_text(&mut out, percent);
    push_text(&mut out, "%");
    out
}

/// Why typing stopped before the end.
#[derive(Debug, Clone, Copy, PartialEq, Eq, Structural)]
pub enum CancelReason {
    /// The mouse reached a screen corner (emergency stop).
    FailSafe,
    /// Ctrl+C.
    CtrlC,
}

/// Why a stop check stops typing: Ctrl+C first, then the mouse in a screen
/// corner (only consulted when the emergency stop is on); `None` to go on.
pub open spec fn stop_reason_of(ctrl_c: bool, failsafe_on: bool, mouse_in_corner: bool) -> Option<
    CancelReason,
> {
    if ctrl_c {
        Some(CancelReason::CtrlC)
    } else if failsafe_on && mouse_in_corner {
        Some(CancelReason::FailSafe)
    } else {
        None
    }
}

/// Why a stop check stops typing, as `stop_reason_of` says.
pub fn stop_reason(ctrl_c: bool, failsafe_on: bool, mouse_in_corner: bool) -> (r: Option<
    CancelReason,
>)
    ensures
        r == stop_reason_of(ctrl_c, failsafe_on, mouse_in_corner),
{
    if ctrl_c {
        Some(CancelReason::CtrlC)
    } else if failsafe_on && mouse_in_corner {
        Some(CancelReason::FailSafe)
    } else {
        None
    }
}

/// The end of a command-line run: what it prints and its exit code.
#[derive(Debug)]
pub struct CliExit {
    pub output: String,
    pub code: i32,
}

pub open spec fn exit_view(e: CliExit) -> (Seq<char>, i32) {
    (e.output@, e.code)
}

/// Where the text to type comes from, once the options are known.
#[derive(Debug)]
pub enum CliInput {
    /// The text itself.
    Ready(String),
    /// The text is the content of the file at this path.
    ReadFile(String),
}

/// The same, as values: `(true, path)` for a file, `(false, text)` otherwise.
pub open spec fn input_view(i: CliInput) -> (bool, Seq<char>) {
    match i {
        CliInput::Ready(t) => (false, t@),
        CliInput::ReadFile(p) => (true, p@),
    }
}

pub open spec fn error_line(m: Seq<char>) -> Seq<char> {
    "[错误] "@ + m + "\n"@
}

/// A parse error prints the message and the usage, and exits with 2; `--help`
/// prints the usage and exits with 0; otherwise the run goes on with the
/// options.
pub open spec fn start_outcome(args: Seq<Seq<char>>) -> Result<CliOptionsModel, (Seq<char>, i32)> {
    match parse_result(args) {
        Err(m) => Err((error_line(m) + HELP_TEXT@, 2)),
        Ok(o) => if o.help {
            Err((HELP_TEXT@, 0))
        } else {
            Ok(o)
        },
    }
}

/// First step of a command-line run: parse the arguments.
pub fn cli_start(args: &[String]) -> (r: Result<CliOptions, CliExit>)
    ensures
        match r {
            Ok(o) => start_outcome(arg_views(args@)) == Ok::<CliOptionsModel, (Seq<char>, i32)>(o@),
            Err(e) => start_outcome(arg_views(args@)) == Err::<CliOptionsModel, (Seq<char>, i32)>(
                exit_view(e),
            ),
        },
{
    match parse_args(args) {
        Err(m) => {
            let mut out = String::from_str("[错误] ");
            push_text(&mut out, m.as_str());
            push_text(&mut out, "\n");
            push_text(&mut out, HELP_TEXT);
            Err(CliExit { output: out, code: 2 })
        },
        Ok(o) => {
            if o.help {
                Err(CliExit { output: help_text(), code: 0 })
            } else {
                Ok(o)
            }
        },
    }
}

/// `--list-snippets` prints the list and exits with 0; otherwise the text
/// comes from `--text`, from the file of `--file`, or from the snippet named
/// by `--snippet` (an unknown name exits with 1); with none of them the run
/// prints an error and the usage and exits with 1.
pub open spec fn input_outcome(o: CliOptionsModel, e: Seq<(Seq<char>, Seq<char>)>) -> Result<
    (bool, Seq<char>),
    (Seq<char>, i32),
> {
    if o.list_snippets {
        Err((snippet_listing(e) + "\n"@, 0))
    } else if o.text is Some {
        Ok((false, o.text->0))
    } else if o.file is Some {
        Ok((true, o.file->0))
    } else if o.snippet is Some {
        match lookup(e, o.snippet->0) {
            Some(c) => Ok((false, c)),
            None => Err((error_line("未找到文本片段: "@ + o.snippet->0), 1)),
        }
    } else {
        Err((error_line("请指定 --text、--file 或 --snippet"@) + HELP_TEXT@, 1))
    }
}

/// Second step: decide where the text comes from.
pub fn cli_input(opts: &CliOptions, snippets: &Snippets) -> (r: Result<CliInput, CliExit>)
    ensures
        match r {
            Ok(i) => input_outcome(opts@, snippet_entries(*snippets)) == Ok::<
                (bool, Seq<char>),
                (Seq<char>, i32),
            >(input_view(i)),
            Err(e) => input_outcome(opts@, snippet_entries(*snippets)) == Err::<
                (bool, Seq<char>),
                (Seq<char>, i32),
            >(exit_view(e)),
        },
{
    if opts.list_snippets {
        let mut out = format_snippet_list(snippets);
        push_text(&mut out, "\n");
        return Err(CliExit { output: out, code: 0 });
    }
    match &opts.text {
        Some(t) => {
            return Ok(CliInput::Ready(t.clone()));
        },
        None => {},
    }
    match &opts.file {
        Some(p) => {
            return Ok(CliInput::ReadFile(p.clone()));
        },
        None => {},
    }
    match &opts.snippet {
        Some(name) => {
            match get_snippet(snippets, name.as_str()) {
                Some(c) => Ok(CliInput::Ready(c)),
                None => {
                    let mut out = String::from_str("[错误] ");
                    push_text(&mut out, "未找到文本片段: ");
                    push_text(&mut out, name.as_str());
                    push_text(&mut out, "\n");
                    proof {
                        assert(out@ == error_line("未找到文本片段: "@ + name@));
                    }
                    Err(CliExit { output: out, code: 1 })
                },
            }
        },
        None => {
            let mut out = String::from_str("[错误] ");
            push_text(&mut out, "请指定 --text、--file 或 --snippet");
            push_text(&mut out, "\n");
            push_text(&mut out, HELP_TEXT);
            Err(CliExit { output: out, code: 1 })
        },
    }
}

/// A file that cannot be read: the reason is printed and the run exits with 1.
pub fn cli_file_error(reason: &str) -> (e: CliExit)
    ensures
        exit_view(e) == (error_line("无法读取文件: "@ + reason@), 1i32),
{
    let mut out = String::from_str("[错误] ");
    push_text(&mut out, "无法读取文件: ");
    push_text(&mut out, reason);
    push_text(&mut out, "\n");
    CliExit { output: out, code: 1 }
}

/// Third step: a text made only of whitespace is refused (exit 1); any
/// other text is typed as it is.
pub fn cli_check_text(text: String) -> (r: Result<String, CliExit>)
    ensures
        is_blank(text@) ==> (r matches Err(e) && exit_view(e) == (error_line("输入文本为空"@), 1i32)),
        !is_blank(text@) ==> (r matches Ok(t) && t@ == text@),
{
    if text_is_blank(text.as_str()) {
        let mut out = String::from_str("[错误] ");
        push_text(&mut out, "输入文本为空");
        push_text(&mut out, "\n");
        Err(CliExit { output: out, code: 1 })
    } else {
        Ok(text)
    }
}

/// The countdown in seconds: the command line's, else the configuration's,
/// and never below 0.
pub fn effective_countdown(given: Option<i64>, configured: i64) -> (r: i64)
    ensures
        r == (match given {
            Some(c) => if c > 0 { c } else { 0 },
            None => if configured > 0 { configured } else { 0 },
        }),
{
    let c = match given {
        Some(c) => c,
        None => configured,
    };
    if c > 0 {
        c
    } else {
        0
    }
}

/// What the command line prints before the countdown.
pub open spec fn countdown_banner_text(seconds: nat) -> Seq<char> {
    "\n"@ + decimal_text(seconds) + " 秒后开始输入...\n"@ + "请将光标放到目标输入框中\n"@
        + "紧急停止：鼠标移至屏幕四角 或 Ctrl+C\n\n"@
}

pub fn countdown_banner(seconds: u64) -> (r: String)
    ensures
        r@ == countdown_banner_text(seconds as nat),
{
    let mut out = String::from_str("\n");
    push_decimal(&mut out, seconds as u128);
    push_text(&mut out, " 秒后开始输入...\n");
    push_text(&mut out, "请将光标放到目标输入框中\n");
    push_text(&mut out, "紧急停止：鼠标移至屏幕四角 或 Ctrl+C\n\n");
    out
}

/// The line the command line prints for each second of the countdown.
pub fn countdown_tick(second: u64) -> (r: String)
    ensures
        r@ == "  "@ + decimal_text(second as nat) + "...\n"@,
{
    let mut out = String::from_str("  ");
    push_decimal(&mut out, second as u128);
    push_text(&mut out, "...\n");
    out
}

/// The exit code of a run that typed `sent` characters and stopped for
/// `reason`: 0 when it typed everything, 2 for the emergency stop, 3 for
/// Ctrl+C.
pub open spec fn finish_code(reason: Option<CancelReason>) -> i32 {
    match reason {
        None => 0,
        Some(CancelReason::FailSafe) => 2,
        Some(CancelReason::CtrlC) => 3,
    }
}

pub open spec fn finish_text(reason: Option<CancelReason>, sent: nat) -> Seq<char> {
    match reason {
        None => "\n\n输入完成，共发送 "@ + decimal_text(sent) + " 个字符\n"@,
        Some(CancelReason::FailSafe) => "\n\n紧急停止（鼠标移至屏幕角落）\n"@ + "已发送 "@ + decimal_text(
            sent,
        ) + " 个字符\n"@,
        Some(CancelReason::CtrlC) => "\n\n用户中断（Ctrl+C）\n"@ + "已发送 "@ + decimal_text(sent)
            + " 个字符\n"@,
    }
}

/// The end of a run that typed `sent` characters: what it prints and its
/// exit code. A Ctrl+C during the countdown ends the same way with 0 sent.
pub fn cli_finish(reason: Option<CancelReason>, sent: usize) -> (e: CliExit)
    ensures
        exit_view(e) == (finish_text(reason, sent as nat), finish_code(reason)),
{
    match reason {
        None => {
            let mut out = String::from_str("\n\n输入完成，共发送 ");
            push_decimal(&mut out, sent as u128);
            push_text(&mut out, " 个字符\n");
            CliExit { output: out, code: 0 }
        },
        Some(CancelReason::FailSafe) => {
            let mut out = String::from_str("\n\n紧急停止（鼠标移至屏幕角落）\n");
            push_text(&mut out, "已发送 ");
            push_decimal(&mut out, sent as u128);
            push_text(&mut out, " 个字符\n");
            CliExit { output: out, code: 2 }
        },
        Some(CancelReason::CtrlC) => {
            let mut out = String::from_str("\n\n用户中断（Ctrl+C）\n");
            push_text(&mut out, "已发送 ");
            push_decimal(&mut out, sent as u128);
            push_text(&mut out, " 个字符\n");
            CliExit { output: out, code: 3 }
        },
    }
}

/// Whenever parsing succeeds, at most one of `--text`, `--file` and
/// `--snippet` is given: the three sources exclude each other.
pub proof fn law_sources_exclusive(rest: Seq<Seq<char>>, o: CliOptionsModel)
    ensures
        parse_rest(rest, o) matches Ok(p) ==> source_count(p) <= 1,
    decreases rest.len(),
{
    if rest.len() > 0 {
        let a = rest[0];
        law_sources_exclusive(rest.drop_first(), CliOptionsModel { help: true, ..o });
        law_sources_exclusive(rest.drop_first(), CliOptionsModel { list_snippets: true, ..o });
        law_sources_exclusive(rest.drop_first(), CliOptionsModel { no_failsafe: true, ..o });
        if exact_value_flag(a) is Some {
            let f = exact_value_flag(a)->0;
            match first_index_of(a, '=') {
                Some(k) => {
                    if let Ok(o2) = apply_value(o, f, a.skip(k + 1)) {
                        law_sources_exclusive(rest.drop_first(), o2);
                    }
                },
                None => {
                    if rest.len() >= 2 {
                        if let Ok(o2) = apply_value(o, f, rest[1]) {
                            law_sources_exclusive(rest.skip(2), o2);
                        }
                    }
                },
            }
        } else if a.len() >= 2 && a[0] == '-' && a[1] == '-' && first_index_of(a.skip(2), '=') is Some {
            let long = a.skip(2);
            let k = first_index_of(long, '=')->0;
            if let Some(f) = named_value_flag(long.take(k)) {
                if let Ok(o2) = apply_value(o, f, long.skip(k + 1)) {
                    law_sources_exclusive(rest.drop_first(), o2);
                }
            }
        }
    }
}

/// The long names of the options that take a value.
pub open spec fn is_value_option_name(n: Seq<char>) -> bool {
    ||| n == "text"@
    ||| n == "file"@
    ||| n == "snippet"@
    ||| n == "interval"@
    ||| n == "line-delay"@
    ||| n == "countdown"@
}

proof fn lemma_no_equals_in(s: Seq<char>)
    requires
        forall|j: int| 0 <= j < s.len() ==> s[j] != '=',
    ensures
        first_index_of(s, '=') is None,
{
    lemma_first_index_of(s, '=');
    if first_index_of(s, '=') is Some {
        let k = first_index_of(s, '=')->0;
        assert(s[k] != '=');
    }
}

/// `--name=value` means the same as `--name value` for every option that
/// takes a value, wherever it stands among the arguments: the same options
/// result, or the same error.
pub proof fn law_inline_value_same_as_separate(
    name: Seq<char>,
    value: Seq<char>,
    rest: Seq<Seq<char>>,
    o: CliOptionsModel,
)
    requires
        is_value_option_name(name),
    ensures
        parse_rest(seq!["--"@ + name + "="@ + value] + rest, o) == parse_rest(
            seq!["--"@ + name, value] + rest,
            o,
        ),
{
    reveal_strlit("-h");
    reveal_strlit("--help");
    reveal_strlit("--list-snippets");
    reveal_strlit("--no-failsafe");
    reveal_strlit("-t");
    reveal_strlit("--text");
    reveal_strlit("-f");
    reveal_strlit("--file");
    reveal_strlit("-s");
    reveal_strlit("--snippet");
    reveal_strlit("--interval");
    reveal_strlit("--line-delay");
    reveal_strlit("--countdown");
    reveal_strlit("text");
    reveal_strlit("file");
    reveal_strlit("snippet");
    reveal_strlit("interval");
    reveal_strlit("line-delay");
    reveal_strlit("countdown");
    reveal_strlit("--");
    reveal_strlit("=");
    let a1 = "--"@ + name + "="@ + value;
    let a2 = "--"@ + name;
    let r1 = seq![a1] + rest;
    let r2 = seq![a2, value] + rest;
    assert(r1[0] == a1);
    assert(r1.drop_first() == rest);
    assert(r2[0] == a2);
    assert(r2[1] == value);
    assert(r2.skip(2) == rest);
    // the separate form names the option exactly, and holds no `=`
    assert(forall|j: int| 0 <= j < name.len() ==> name[j] != '=');
    assert forall|j: int| 0 <= j < a2.len() implies a2[j] != '=' by {
        if j >= 2 {
            assert(a2[j] == name[j - 2]);
        }
    }
    lemma_no_equals_in(a2);
    assert(exact_value_flag(a2) == named_value_flag(name)) by {
        if name == "text"@ {
            assert(a2 =~= "--text"@);
        } else if name == "file"@ {
            assert(a2 =~= "--file"@);
        } else if name == "snippet"@ {
            assert(a2 =~= "--snippet"@);
        } else if name == "interval"@ {
            assert(a2 =~= "--interval"@);
        } else if name == "line-delay"@ {
            assert(a2 =~= "--line-delay"@);
        } else {
            assert(a2 =~= "--countdown"@);
        }
    }
    // the inline form is no exact option: it holds a `=`
    let k = name.len() as int;
    assert(a1[2 + k] == '=');
    assert(a1 != "-h"@ && a1 != "--help"@ && a1 != "--list-snippets"@ && a1 != "--no-failsafe"@)
        by {
        if a1 == "-h"@ || a1 == "--help"@ || a1 == "--list-snippets"@ || a1 == "--no-failsafe"@ {
            assert(a1[2 + k] != '=');
        }
    }
    assert(exact_value_flag(a1) is None) by {
        if exact_value_flag(a1) is Some {
            assert(a1[2 + k] != '=');
        }
    }
    assert(a2 != "-h"@ && a2 != "--help"@ && a2 != "--list-snippets"@ && a2 != "--no-failsafe"@)
        by {
        if a2 == "-h"@ || a2 == "--help"@ || a2 == "--list-snippets"@ || a2 == "--no-failsafe"@ {
            if name == "text"@ {
                assert(a2[2] == 't');
            } else if name == "file"@ {
                assert(a2[2] == 'f');
            } else if name == "snippet"@ {
                assert(a2[2] == 's');
            } else if name == "interval"@ {
                assert(a2[2] == 'i');
            } else if name == "line-delay"@ {
                assert(a2[2] == 'l' && a2[3] == 'i');
            } else {
                assert(a2[2] == 'c');
            }
        }
    }
    let long = a1.skip(2);
    assert(long =~= name + "="@ + value);
    assert forall|j: int| 0 <= j < k implies long[j] != '=' by {
        assert(long[j] == name[j]);
    }
    lemma_first_index_of(long, '=');
    assert(first_index_of(long, '=') == Some(k)) by {
        match first_index_of(long, '=') {
            Some(m) => {
                if m < k {
                    assert(long[m] != '=');
                } else if m > k {
                    assert(long[k] == '=');
                }
            },
            None => {
                assert(long[k] == '=');
            },
        }
    }
    assert(long.take(k) =~= name);
    assert(long.skip(k + 1) =~= value);
}

/// `--help` added after arguments that parse gives the same options, with
/// help asked for; the run then prints the usage and exits with 0.
pub proof fn law_help_after_valid_arguments(rest: Seq<Seq<char>>, o: CliOptionsModel)
    ensures
        parse_rest(rest, o) matches Ok(p) ==> parse_rest(rest.push("--help"@), o) == Ok::<
            CliOptionsModel,
            Seq<char>,
        >(CliOptionsModel { help: true, ..p }),
    decreases rest.len(),
{
    let h = "--help"@;
    let r2 = rest.push(h);
    if rest.len() == 0 {
        assert(r2[0] == h);
        assert(r2.drop_first() == Seq::<Seq<char>>::empty());
    } else {
        let a = rest[0];
        assert(r2[0] == a);
        assert(r2.drop_first() == rest.drop_first().push(h));
        law_help_after_valid_arguments(rest.drop_first(), CliOptionsModel { help: true, ..o });
        law_help_after_valid_arguments(
            rest.drop_first(),
            CliOptionsModel { list_snippets: true, ..o },
        );
        law_help_after_valid_arguments(rest.drop_first(), CliOptionsModel { no_failsafe: true, ..o });
        if exact_value_flag(a) is Some {
            let f = exact_value_flag(a)->0;
            match first_index_of(a, '=') {
                Some(k) => {
                    if let Ok(o2) = apply_value(o, f, a.skip(k + 1)) {
                        law_help_after_valid_arguments(rest.drop_first(), o2);
                    }
                },
                None => {
                    if rest.len() >= 2 {
                        assert(r2[1] == rest[1]);
                        assert(r2.skip(2) == rest.skip(2).push(h));
                        if let Ok(o2) = apply_value(o, f, rest[1]) {
                            law_help_after_valid_arguments(rest.skip(2), o2);
                        }
                    }
                },
            }
        } else if a.len() >= 2 && a[0] == '-' && a[1] == '-' && first_index_of(a.skip(2), '=') is Some {
            let long = a.skip(2);
            let k = first_index_of(long, '=')->0;
            if let Some(f) = named_value_flag(long.take(k)) {
                if let Ok(o2) = apply_value(o, f, long.skip(k + 1)) {
                    law_help_after_valid_arguments(rest.drop_first(), o2);
                }
            }
        }
    }
}


proof fn lemma_short_and_long_step(a: Seq<char>, v: Seq<char>, rest: Seq<Seq<char>>, o: CliOptionsModel)
    requires
        exact_value_flag(a) is Some,
        first_index_of(a, '=') is None,
        a != "-h"@ && a != "--help"@ && a != "--list-snippets"@ && a != "--no-failsafe"@,
    ensures
        parse_rest(seq![a, v] + rest, o) == match apply_value(o, exact_value_flag(a)->0, v) {
            Ok(o2) => parse_rest(rest, o2),
            Err(m) => Err(m),
        },
{
    let r = seq![a, v] + rest;
    assert(r[0] == a);
    assert(r[1] == v);
    assert(r.skip(2) =~= rest);
}

/// Each short option means the same as its long form, wherever it stands:
/// `-t` as `--text`, `-f` as `--file`, `-s` as `--snippet`.
pub proof fn law_short_options_same_as_long(v: Seq<char>, rest: Seq<Seq<char>>, o: CliOptionsModel)
    ensures
        parse_rest(seq!["-t"@, v] + rest, o) == parse_rest(seq!["--text"@, v] + rest, o),
        parse_rest(seq!["-f"@, v] + rest, o) == parse_rest(seq!["--file"@, v] + rest, o),
        parse_rest(seq!["-s"@, v] + rest, o) == parse_rest(seq!["--snippet"@, v] + rest, o),
{
    reveal_strlit("-h");
    reveal_strlit("--help");
    reveal_strlit("--list-snippets");
    reveal_strlit("--no-failsafe");
    reveal_strlit("-t");
    reveal_strlit("--text");
    reveal_strlit("-f");
    reveal_strlit("--file");
    reveal_strlit("-s");
    reveal_strlit("--snippet");
    reveal_strlit("--interval");
    reveal_strlit("--line-delay");
    reveal_strlit("--countdown");
    let flags = seq!["-t"@, "--text"@, "-f"@, "--file"@, "-s"@, "--snippet"@];
    assert forall|i: int| 0 <= i < flags.len() implies first_index_of(#[trigger] flags[i], '=')
        is None by {
        let a = flags[i];
        assert forall|j: int| 0 <= j < a.len() implies a[j] != '=' by {}
        lemma_no_equals_in(a);
    }
    assert(flags[0] == "-t"@ && flags[1] == "--text"@ && flags[2] == "-f"@);
    assert(flags[3] == "--file"@ && flags[4] == "-s"@ && flags[5] == "--snippet"@);
    assert("-t"@ != "-h"@) by {
        assert("-t"@[1] != "-h"@[1]);
    }
    assert("-f"@ != "-h"@) by {
        assert("-f"@[1] != "-h"@[1]);
    }
    assert("-s"@ != "-h"@) by {
        assert("-s"@[1] != "-h"@[1]);
    }
    assert("-f"@ != "-t"@ && "-s"@ != "-t"@ && "-s"@ != "-f"@) by {
        assert("-f"@[1] != "-t"@[1] && "-s"@[1] != "-t"@[1] && "-s"@[1] != "-f"@[1]);
    }
    assert("--file"@ != "--text"@) by {
        assert("--file"@[2] != "--text"@[2]);
    }
    assert(exact_value_flag("-f"@) == Some(ValueFlag::File));
    assert(exact_value_flag("--file"@) == Some(ValueFlag::File));
    assert(exact_value_flag("-s"@) == Some(ValueFlag::Snippet));
    assert(exact_value_flag("--snippet"@) == Some(ValueFlag::Snippet));
    lemma_short_and_long_step("-t"@, v, rest, o);
    lemma_short_and_long_step("--text"@, v, rest, o);
    lemma_short_and_long_step("-f"@, v, rest, o);
    lemma_short_and_long_step("--file"@, v, rest, o);
    lemma_short_and_long_step("-s"@, v, rest, o);
    lemma_short_and_long_step("--snippet"@, v, rest, o);
}

/// An input source given alone is recorded as that source, and only as it:
/// `--text v` (or `-t v`) gives the text `v`, `--file v` (or `-f v`) the
/// file `v`, `--snippet v` (or `-s v`) the snippet named `v`, with every
/// other option unset.
pub proof fn law_source_option_sets_that_source(v: Seq<char>)
    ensures
        parse_result(seq!["--text"@, v]) == Ok::<CliOptionsModel, Seq<char>>(
            CliOptionsModel {
                text: Some(v),
                file: None,
                snippet: None,
                interval: None,
                line_delay: None,
                countdown: None,
                no_failsafe: false,
                list_snippets: false,
                help: false,
            },
        ),
        parse_result(seq!["--file"@, v]) == Ok::<CliOptionsModel, Seq<char>>(
            CliOptionsModel {
                text: None,
                file: Some(v),
                snippet: None,
                interval: None,
                line_delay: None,
                countdown: None,
                no_failsafe: false,
                list_snippets: false,
                help: false,
            },
        ),
        parse_result(seq!["--snippet"@, v]) == Ok::<CliOptionsModel, Seq<char>>(
            CliOptionsModel {
                text: None,
                file: None,
                snippet: Some(v),
                interval: None,
                line_delay: None,
                countdown: None,
                no_failsafe: false,
                list_snippets: false,
                help: false,
            },
        ),
{
    let e = Seq::<Seq<char>>::empty();
    law_short_options_same_as_long(v, e, no_options());
    reveal_strlit("-h");
    reveal_strlit("--help");
    reveal_strlit("--list-snippets");
    reveal_strlit("--no-failsafe");
    reveal_strlit("-t");
    reveal_strlit("--text");
    reveal_strlit("-f");
    reveal_strlit("--file");
    reveal_strlit("-s");
    reveal_strlit("--snippet");
    reveal_strlit("--interval");
    reveal_strlit("--line-delay");
    reveal_strlit("--countdown");
    let flags = seq!["--text"@, "--file"@, "--snippet"@];
    assert forall|i: int| 0 <= i < flags.len() implies first_index_of(#[trigger] flags[i], '=')
        is None by {
        let a = flags[i];
        assert forall|j: int| 0 <= j < a.len() implies a[j] != '=' by {}
        lemma_no_equals_in(a);
    }
    assert(flags[0] == "--text"@ && flags[1] == "--file"@ && flags[2] == "--snippet"@);
    lemma_short_and_long_step("--text"@, v, e, no_options());
    lemma_short_and_long_step("--file"@, v, e, no_options());
    lemma_short_and_long_step("--snippet"@, v, e, no_options());
    assert(seq!["--text"@, v] + e =~= seq!["--text"@, v]);
    assert(seq!["--file"@, v] + e =~= seq!["--file"@, v]);
    assert(seq!["--snippet"@, v] + e =~= seq!["--snippet"@, v]);
}


proof fn lemma_lines_front(e: Seq<(Seq<char>, Seq<char>)>)
    requires
        e.len() > 0,
    ensures
        snippet_lines(e) == snippet_line(e[0]) + snippet_lines(e.drop_first()),
    decreases e.len(),
{
    if e.len() == 1 {
        assert(e.drop_last() =~= Seq::<(Seq<char>, Seq<char>)>::empty());
        assert(e.drop_first() =~= Seq::<(Seq<char>, Seq<char>)>::empty());
        assert(snippet_lines(Seq::<(Seq<char>, Seq<char>)>::empty()) == Seq::<char>::empty());
        assert(e.last() == e[0]);
        assert(snippet_lines(e) =~= snippet_line(e[0]));
    } else {
        lemma_lines_front(e.drop_last());
        assert(e.drop_last().drop_first() =~= e.drop_first().drop_last());
        assert(e.drop_first().last() == e.last());
        assert(e.drop_last()[0] == e[0]);
        assert(snippet_lines(e) =~= snippet_line(e[0]) + snippet_lines(e.drop_first()));
    }
}

proof fn lemma_lines_split(e: Seq<(Seq<char>, Seq<char>)>, i: int)
    requires
        0 <= i <= e.len(),
    ensures
        snippet_lines(e) == snippet_lines(e.take(i)) + snippet_lines(e.skip(i)),
    decreases e.len() - i,
{
    if i == e.len() {
        assert(e.take(i) =~= e);
        assert(e.skip(i) =~= Seq::<(Seq<char>, Seq<char>)>::empty());
        assert(snippet_lines(e) + Seq::<char>::empty() =~= snippet_lines(e));
    } else {
        lemma_lines_split(e, i + 1);
        let t = e.take(i + 1);
        assert(t.drop_last() =~= e.take(i));
        assert(t.last() == e[i]);
        let k = e.skip(i);
        lemma_lines_front(k);
        assert(k[0] == e[i]);
        assert(k.drop_first() =~= e.skip(i + 1));
        assert(snippet_lines(e) =~= snippet_lines(e.take(i)) + snippet_lines(e.skip(i)));
    }
}

/// The header of a non-empty snippet listing.
pub open spec fn listing_header(n: nat) -> Seq<char> {
    "已保存的文本片段（共 "@ + decimal_text(n) + " 个）：\n"@
}

/// Where the line of entry `i` starts in the snippet listing.
pub open spec fn listing_line_at(e: Seq<(Seq<char>, Seq<char>)>, i: int) -> int {
    (listing_header(e.len()).len() + 41 + snippet_lines(e.take(i)).len()) as int
}

/// With `--list-snippets` the run prints the listing of the book it is given
/// and exits with 0. An empty book gives a single line saying so; any other
/// begins with a header counting the entries and holds, one after the other
/// and in the book's order, a line `  • name: ` for each saved name.
pub proof fn law_listing_shows_the_book(o: CliOptionsModel, e: Seq<(Seq<char>, Seq<char>)>)
    requires
        o.list_snippets,
    ensures
        input_outcome(o, e) == Err::<(bool, Seq<char>), (Seq<char>, i32)>(
            (snippet_listing(e) + "\n"@, 0i32),
        ),
        e.len() == 0 ==> snippet_listing(e) == "暂无保存的文本片段。"@,
        e.len() > 0 ==> snippet_listing(e).take(listing_header(e.len()).len() as int)
            == listing_header(e.len()),
        e.len() > 0 ==> forall|i: int|
            0 <= i < e.len() ==> snippet_listing(e).subrange(
                #[trigger] listing_line_at(e, i),
                listing_line_at(e, i) + 6 + e[i].0.len(),
            ) == "  • "@ + e[i].0 + ": "@,
        forall|i: int, j: int|
            0 <= i < j < e.len() ==> #[trigger] listing_line_at(e, i) < #[trigger] listing_line_at(
                e,
                j,
            ),
{
    reveal_strlit("  • ");
    reveal_strlit(": ");
    reveal_strlit("\n");
    assert forall|i: int, j: int| 0 <= i < j < e.len() implies #[trigger] listing_line_at(e, i)
        < #[trigger] listing_line_at(e, j) by {
        let t = e.take(j);
        lemma_lines_split(t, i);
        assert(t.take(i) =~= e.take(i));
        lemma_lines_front(t.skip(i));
        assert(t.skip(i)[0] == e[i]);
        assert(snippet_line(e[i]).len() > 0);
    }
    if e.len() > 0 {
        let h = listing_header(e.len());
        let l = snippet_listing(e);
        assert(l =~= h + (rule_line() + "\n"@ + snippet_lines(e) + rule_line()));
        assert(l.take(h.len() as int) =~= h);
        assert(rule_line().len() == 40);
        assert forall|i: int| 0 <= i < e.len() implies l.subrange(
            #[trigger] listing_line_at(e, i),
            listing_line_at(e, i) + 6 + e[i].0.len(),
        ) == "  • "@ + e[i].0 + ": "@ by {
            lemma_lines_split(e, i);
            lemma_lines_front(e.skip(i));
            assert(e.skip(i)[0] == e[i]);
            let pre = h + rule_line() + "\n"@ + snippet_lines(e.take(i));
            let name = "  • "@ + e[i].0 + ": "@;
            let after = preview(e[i].1) + "\n"@ + snippet_lines(e.skip(i).drop_first())
                + rule_line();
            assert(l =~= pre + name + after);
            assert(pre.len() == listing_line_at(e, i));
            assert(name.len() == 6 + e[i].0.len());
            assert(l.subrange(pre.len() as int, (pre.len() + name.len()) as int) =~= name);
        }
    }
}

} // verus!
