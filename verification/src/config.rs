use vstd::prelude::*;
use vstd::string::*;

use crate::debug_view::{DebugView, spec_view_named};

verus! {

/// How the program runs: in a window, or rendering one frame off screen, in a given view,
/// into a PNG file.
#[derive(Clone, Debug, PartialEq, Eq)]
pub enum LaunchMode {
    Windowed,
    HeadlessCapture { output_path: String, delay_ms: u64, debug_view: DebugView },
}

/// The command line, read.
#[derive(Clone, Debug, PartialEq, Eq)]
pub struct RuntimeConfig {
    pub launch_mode: LaunchMode,
}

impl View for LaunchMode {
    /// `None` for windowed mode; the output path, the delay and the view of a headless
    /// capture.
    type V = Option<(Seq<char>, u64, DebugView)>;

    open spec fn view(&self) -> Option<(Seq<char>, u64, DebugView)> {
        match self {
            LaunchMode::Windowed => None,
            LaunchMode::HeadlessCapture { output_path, delay_ms, debug_view } => Some(
                (output_path@, *delay_ms, *debug_view),
            ),
        }
    }
}

impl View for RuntimeConfig {
    type V = Option<(Seq<char>, u64, DebugView)>;

    open spec fn view(&self) -> Option<(Seq<char>, u64, DebugView)> {
        self.launch_mode@
    }
}

// ---------------------------------------------------------------------------
// Reading an unsigned decimal number
// ---------------------------------------------------------------------------
/// `c` is an ASCII decimal digit.
pub open spec fn is_decimal_digit(c: char) -> bool {
    '0' <= c && c <= '9'
}

/// The value of the ASCII decimal digit `c`.
pub open spec fn digit_value(c: char) -> nat {
    (c as int - '0' as int) as nat
}

/// The value of a string of decimal digits, most significant first.
pub open spec fn decimal_value(digits: Seq<char>) -> nat
    decreases digits.len(),
{
    if digits.len() == 0 {
        0
    } else {
        10 * decimal_value(digits.drop_last()) + digit_value(digits.last())
    }
}

/// The digits of an unsigned number: the text without one leading `+`.
pub open spec fn unsigned_digits(text: Seq<char>) -> Seq<char> {
    if text.len() > 0 && text[0] == '+' {
        text.drop_first()
    } else {
        text
    }
}

/// What reading `text` as a `u64` in base ten gives: a nonempty run of decimal digits,
/// after at most one leading `+`, whose value fits in a `u64`; `None` for anything else.
pub open spec fn spec_parse_u64(text: Seq<char>) -> Option<u64> {
    let digits = unsigned_digits(text);
    if digits.len() > 0 && (forall|i: int| 0 <= i < digits.len() ==> is_decimal_digit(
        #[trigger] digits[i],
    )) && decimal_value(digits) <= u64::MAX {
        Some(decimal_value(digits) as u64)
    } else {
        None
    }
}

proof fn lemma_decimal_value_take(digits: Seq<char>, i: int)
    requires
        0 <= i < digits.len(),
    ensures
        decimal_value(digits.take(i + 1)) == 10 * decimal_value(digits.take(i)) + digit_value(
            digits[i],
        ),
{
    assert(digits.take(i + 1).drop_last() =~= digits.take(i));
}

/// A longer prefix of a digit string is worth at least as much as a shorter one.
proof fn lemma_decimal_value_grows(digits: Seq<char>, i: int, j: int)
    requires
        0 <= i <= j <= digits.len(),
    ensures
        decimal_value(digits.take(i)) <= decimal_value(digits.take(j)),
    decreases j - i,
{
    if i < j {
        lemma_decimal_value_grows(digits, i, j - 1);
        lemma_decimal_value_take(digits, j - 1);
    }
}

/// Reads `text` as a `u64` in base ten, as `u64`'s `FromStr` does: one optional leading
/// `+`, then at least one ASCII digit, and a value that fits.
pub fn parse_u64_decimal(text: &str) -> (value: Option<u64>)
    ensures
        value == spec_parse_u64(text@),
{
    let length = text.unicode_len();
    let mut start: usize = 0;
    if length > 0 && text.get_char(0) == '+' {
        start = 1;
    }
    let ghost digits = unsigned_digits(text@);
    assert(digits =~= text@.subrange(start as int, length as int));
    if start >= length {
        return None;
    }
    let mut value: u64 = 0;
    let mut i: usize = start;
    while i < length
        invariant
            start <= i <= length,
            length == text@.len(),
            digits =~= text@.subrange(start as int, length as int),
            digits == unsigned_digits(text@),
            forall|k: int| 0 <= k < i - start ==> is_decimal_digit(#[trigger] digits[k]),
            value as nat == decimal_value(digits.take(i - start)),
        decreases length - i,
    {
        let c = text.get_char(i);
        assert(digits[i - start] == c);
        if !('0' <= c && c <= '9') {
            assert(!is_decimal_digit(digits[i - start]));
            return None;
        }
        proof {
            lemma_decimal_value_take(digits, i - start);
        }
        let digit = (c as u32 - '0' as u32) as u64;
        let scaled = value.checked_mul(10);
        if scaled.is_none() {
            proof {
                lemma_decimal_value_grows(digits, i - start + 1, digits.len() as int);
                assert(digits.take(digits.len() as int) =~= digits);
            }
            return None;
        }
        let next = scaled.unwrap().checked_add(digit);
        if next.is_none() {
            proof {
                lemma_decimal_value_grows(digits, i - start + 1, digits.len() as int);
                assert(digits.take(digits.len() as int) =~= digits);
            }
            return None;
        }
        value = next.unwrap();
        i = i + 1;
    }
    assert(digits.take(digits.len() as int) =~= digits);
    Some(value)
}

// ---------------------------------------------------------------------------
// Reading the command line
// ---------------------------------------------------------------------------
/// The flags read so far: the output path, the delay and the view.
pub type ScannedFlags = (Option<Seq<char>>, Option<u64>, Option<DebugView>);

/// What scanning the arguments from `index` on gives, with the flags read so far: the last
/// value of each of `--headless-png`, `--delay-ms` and `--debug-view`, or the message of the
/// first error.
pub open spec fn scan_args(args: Seq<Seq<char>>, index: int, flags: ScannedFlags) -> Result<
    ScannedFlags,
    Seq<char>,
>
    decreases args.len() - index,
{
    let (output_path, delay_ms, debug_view) = flags;
    if index < 0 || index >= args.len() {
        Ok(flags)
    } else if args[index] == "--headless-png"@ {
        if index + 1 >= args.len() {
            Err("expected a file path after --headless-png"@)
        } else {
            scan_args(args, index + 2, (Some(args[index + 1]), delay_ms, debug_view))
        }
    } else if args[index] == "--delay-ms"@ {
        if index + 1 >= args.len() {
            Err("expected a millisecond value after --delay-ms"@)
        } else {
            match spec_parse_u64(args[index + 1]) {
                Some(delay) => scan_args(args, index + 2, (output_path, Some(delay), debug_view)),
                None => Err("invalid --delay-ms value: "@ + args[index + 1]),
            }
        }
    } else if args[index] == "--debug-view"@ {
        if index + 1 >= args.len() {
            Err("expected a view name after --debug-view"@)
        } else {
            match spec_view_named(args[index + 1]) {
                Some(view) => scan_args(args, index + 2, (output_path, delay_ms, Some(view))),
                None => Err("invalid --debug-view value: "@ + args[index + 1]),
            }
        }
    } else {
        Err("unrecognized argument: "@ + args[index])
    }
}

/// What the command line `args` means: `Ok(None)` for windowed mode, `Ok(Some((path,
/// delay, view)))` for a headless capture (in the default view unless one is named), or
/// the error message.
pub open spec fn spec_runtime_config(args: Seq<Seq<char>>) -> Result<
    Option<(Seq<char>, u64, DebugView)>,
    Seq<char>,
> {
    match scan_args(args, 0, (None, None, None)) {
        Err(message) => Err(message),
        Ok((None, None, None)) => Ok(None),
        Ok((Some(path), Some(delay), view)) => Ok(
            Some(
                (
                    path,
                    delay,
                    match view {
                        Some(v) => v,
                        None => DebugView::Default,
                    },
                ),
            ),
        ),
        Ok((Some(_), None, _)) => Err("--delay-ms is required when using --headless-png"@),
        Ok((None, Some(_), _)) => Err("--headless-png is required when using --delay-ms"@),
        Ok((None, None, Some(_))) => Err("--headless-png is required when using --debug-view"@),
    }
}

/// The views of the arguments.
pub open spec fn args_view(args: Seq<&str>) -> Seq<Seq<char>> {
    args.map_values(|arg: &str| arg@)
}

/// The view of an optional string.
pub open spec fn optional_text(text: Option<String>) -> Option<Seq<char>> {
    match text {
        Some(s) => Some(s@),
        None => None,
    }
}

/// Whether the two strings hold the same characters.
pub fn str_equals(a: &str, b: &str) -> (equal: bool)
    ensures
        equal == (a@ == b@),
{
    let length = a.unicode_len();
    if length != b.unicode_len() {
        return false;
    }
    let mut i: usize = 0;
    while i < length
        invariant
            i <= length,
            length == a@.len(),
            length == b@.len(),
            forall|k: int| 0 <= k < i ==> a@[k] == b@[k],
        decreases length - i,
    {
        if a.get_char(i) != b.get_char(i) {
            return false;
        }
        i = i + 1;
    }
    assert(a@ =~= b@);
    true
}

/// Reads the command line (without the program name). `--headless-png <path>` and
/// `--delay-ms <milliseconds>` select a headless capture and must come together;
/// `--debug-view <name>` picks the view of a headless capture. With none of them the
/// program runs in a window. A flag given twice keeps its last value.
pub fn parse_runtime_config(args: &[&str]) -> (config: Result<RuntimeConfig, String>)
    ensures
        match (config, spec_runtime_config(args_view(args@))) {
            (Ok(c), Ok(mode)) => c@ == mode,
            (Err(e), Err(message)) => e@ == message,
            _ => false,
        },
{
    let ghost view = args_view(args@);
    let mut output_path: Option<String> = None;
    let mut delay: Option<u64> = None;
    let mut debug_view: Option<DebugView> = None;
    let mut index: usize = 0;
    while index < args.len()
        invariant
            view == args_view(args@),
            index <= args@.len() + 1,
            scan_args(view, 0, (None, None, None)) == scan_args(
                view,
                index as int,
                (optional_text(output_path), delay, debug_view),
            ),
        decreases args@.len() + 1 - index,
    {
        let arg = args[index];
        if str_equals(arg, "--headless-png") {
            if index + 1 >= args.len() {
                return Err(String::from_str("expected a file path after --headless-png"));
            }
            output_path = Some(String::from_str(args[index + 1]));
            index = index + 2;
        } else if str_equals(arg, "--delay-ms") {
            if index + 1 >= args.len() {
                return Err(String::from_str("expected a millisecond value after --delay-ms"));
            }
            let raw_delay = args[index + 1];
            match parse_u64_decimal(raw_delay) {
                Some(parsed_delay) => {
                    delay = Some(parsed_delay);
                },
                None => {
                    return Err(String::from_str("invalid --delay-ms value: ").concat(raw_delay));
                },
            }
            index = index + 2;
        } else if str_equals(arg, "--debug-view") {
            if index + 1 >= args.len() {
                return Err(String::from_str("expected a view name after --debug-view"));
            }
            let raw_view = args[index + 1];
            match DebugView::from_name(raw_view) {
                Some(parsed_view) => {
                    debug_view = Some(parsed_view);
                },
                None => {
                    return Err(String::from_str("invalid --debug-view value: ").concat(raw_view));
                },
            }
            index = index + 2;
        } else {
            return Err(String::from_str("unrecognized argument: ").concat(arg));
        }
    }
    match (output_path, delay, debug_view) {
        (None, None, None) => Ok(RuntimeConfig { launch_mode: LaunchMode::Windowed }),
        (Some(output_path), Some(delay_ms), view) => {
            let debug_view = match view {
                Some(v) => v,
                None => DebugView::Default,
            };
            Ok(
                RuntimeConfig {
                    launch_mode: LaunchMode::HeadlessCapture { output_path, delay_ms, debug_view },
                },
            )
        },
        (Some(_), None, _) => Err(
            String::from_str("--delay-ms is required when using --headless-png"),
        ),
        (None, Some(_), _) => Err(
            String::from_str("--headless-png is required when using --delay-ms"),
        ),
        (None, None, Some(_)) => Err(
            String::from_str("--headless-png is required when using --debug-view"),
        ),
    }
}

/// Naming an output path and a valid delay, in either order, asks for a headless capture
/// of that path after that delay, in the default view; either flag alone is refused.
pub proof fn lemma_capture_flags(path: Seq<char>, delay_text: Seq<char>)
    requires
        spec_parse_u64(delay_text) is Some,
    ensures
        spec_runtime_config(seq!["--headless-png"@, path, "--delay-ms"@, delay_text]) == Ok::<
            Option<(Seq<char>, u64, DebugView)>,
            Seq<char>,
        >(Some((path, spec_parse_u64(delay_text).unwrap(), DebugView::Default))),
        spec_runtime_config(seq!["--delay-ms"@, delay_text, "--headless-png"@, path]) == Ok::<
            Option<(Seq<char>, u64, DebugView)>,
            Seq<char>,
        >(Some((path, spec_parse_u64(delay_text).unwrap(), DebugView::Default))),
        spec_runtime_config(seq!["--headless-png"@, path]) == Err::<
            Option<(Seq<char>, u64, DebugView)>,
            Seq<char>,
        >("--delay-ms is required when using --headless-png"@),
        spec_runtime_config(seq!["--delay-ms"@, delay_text]) == Err::<
            Option<(Seq<char>, u64, DebugView)>,
            Seq<char>,
        >("--headless-png is required when using --delay-ms"@),
{
    reveal_strlit("--headless-png");
    reveal_strlit("--delay-ms");
    assert("--headless-png"@.len() == 14);
    assert("--delay-ms"@.len() == 10);
    assert("--delay-ms"@ != "--headless-png"@);
    let delay = spec_parse_u64(delay_text);
    let forward = seq!["--headless-png"@, path, "--delay-ms"@, delay_text];
    assert(scan_args(forward, 4, (Some(path), delay, None)) == Ok::<ScannedFlags, Seq<char>>(
        (Some(path), delay, None),
    ));
    assert(scan_args(forward, 2, (Some(path), None, None)) == scan_args(
        forward,
        4,
        (Some(path), delay, None),
    ));
    assert(scan_args(forward, 0, (None, None, None)) == scan_args(
        forward,
        2,
        (Some(path), None, None),
    ));
    let backward = seq!["--delay-ms"@, delay_text, "--headless-png"@, path];
    assert(scan_args(backward, 4, (Some(path), delay, None)) == Ok::<ScannedFlags, Seq<char>>(
        (Some(path), delay, None),
    ));
    assert(scan_args(backward, 2, (None, delay, None)) == scan_args(
        backward,
        4,
        (Some(path), delay, None),
    ));
    assert(scan_args(backward, 0, (None, None, None)) == scan_args(
        backward,
        2,
        (None, delay, None),
    ));
    let path_only = seq!["--headless-png"@, path];
    assert(scan_args(path_only, 2, (Some(path), None, None)) == Ok::<ScannedFlags, Seq<char>>(
        (Some(path), None, None),
    ));
    assert(scan_args(path_only, 0, (None, None, None)) == scan_args(
        path_only,
        2,
        (Some(path), None, None),
    ));
    let delay_only = seq!["--delay-ms"@, delay_text];
    assert(scan_args(delay_only, 2, (None, delay, None)) == Ok::<ScannedFlags, Seq<char>>(
        (None, delay, None),
    ));
    assert(scan_args(delay_only, 0, (None, None, None)) == scan_args(
        delay_only,
        2,
        (None, delay, None),
    ));
}

// ---------------------------------------------------------------------------
// The order of the flags
// ---------------------------------------------------------------------------
/// `flag value` is a flag with a value that it accepts: an output path, a valid delay, or
/// the name of a view.
pub open spec fn accepted_pair(flag: Seq<char>, value: Seq<char>) -> bool {
    ||| flag == "--headless-png"@
    ||| flag == "--delay-ms"@ && spec_parse_u64(value) is Some
    ||| flag == "--debug-view"@ && spec_view_named(value) is Some
}

/// The arguments read as flags and values without an error.
pub open spec fn reads_as_flags(args: Seq<Seq<char>>) -> bool {
    scan_args(args, 0, (None, None, None)) is Ok
}

/// The flags read so far, after reading the accepted pair `flag value`.
spec fn after_pair(flags: ScannedFlags, flag: Seq<char>, value: Seq<char>) -> ScannedFlags {
    let (output_path, delay_ms, debug_view) = flags;
    if flag == "--headless-png"@ {
        (Some(value), delay_ms, debug_view)
    } else if flag == "--delay-ms"@ {
        (output_path, spec_parse_u64(value), debug_view)
    } else {
        (output_path, delay_ms, spec_view_named(value))
    }
}

/// Reading an accepted pair at `index` moves on two arguments with that pair read.
proof fn lemma_scan_pair(args: Seq<Seq<char>>, index: int, flags: ScannedFlags)
    requires
        0 <= index,
        index + 1 < args.len(),
        accepted_pair(args[index], args[index + 1]),
    ensures
        scan_args(args, index, flags) == scan_args(
            args,
            index + 2,
            after_pair(flags, args[index], args[index + 1]),
        ),
{
    reveal_strlit("--headless-png");
    reveal_strlit("--delay-ms");
    reveal_strlit("--debug-view");
    assert("--headless-png"@.len() == 14);
    assert("--delay-ms"@.len() == 10);
    assert("--debug-view"@.len() == 12);
}

/// Scanning from `index` on reads only the arguments from `index` on.
proof fn lemma_scan_reads_only_the_rest(
    a: Seq<Seq<char>>,
    b: Seq<Seq<char>>,
    index: int,
    flags: ScannedFlags,
)
    requires
        0 <= index,
        a.len() == b.len(),
        forall|k: int| index <= k < a.len() ==> a[k] == b[k],
    ensures
        scan_args(a, index, flags) == scan_args(b, index, flags),
    decreases a.len() - index,
{
    if index + 1 < a.len() {
        let (output_path, delay_ms, debug_view) = flags;
        let value = a[index + 1];
        lemma_scan_reads_only_the_rest(a, b, index + 2, (Some(value), delay_ms, debug_view));
        lemma_scan_reads_only_the_rest(
            a,
            b,
            index + 2,
            (output_path, spec_parse_u64(value), debug_view),
        );
        lemma_scan_reads_only_the_rest(
            a,
            b,
            index + 2,
            (output_path, delay_ms, spec_view_named(value)),
        );
    }
}

/// Where the arguments from `index` to the end of `pre` read without an error, scanning
/// `pre + rest` from `index` reads them and goes on with `rest`.
proof fn lemma_scan_prefix(
    pre: Seq<Seq<char>>,
    rest: Seq<Seq<char>>,
    index: int,
    flags: ScannedFlags,
)
    requires
        0 <= index <= pre.len(),
        scan_args(pre, index, flags) is Ok,
    ensures
        scan_args(pre + rest, index, flags) == scan_args(
            pre + rest,
            pre.len() as int,
            scan_args(pre, index, flags)->Ok_0,
        ),
    decreases pre.len() - index,
{
    if index < pre.len() {
        let all = pre + rest;
        assert(all[index] == pre[index]);
        assert(index + 1 < pre.len());
        assert(all[index + 1] == pre[index + 1]);
        assert(accepted_pair(pre[index], pre[index + 1]));
        let next = after_pair(flags, pre[index], pre[index + 1]);
        lemma_scan_pair(pre, index, flags);
        lemma_scan_pair(all, index, flags);
        lemma_scan_prefix(pre, rest, index + 2, next);
    }
}

/// Two accepted pairs of different flags can trade places anywhere after a part that reads
/// without an error: the command line means the same. So each flag's value is its last one
/// wherever the other flags stand, and a view named before the output path is kept.
pub proof fn lemma_flag_pairs_commute(
    pre: Seq<Seq<char>>,
    first_flag: Seq<char>,
    first_value: Seq<char>,
    second_flag: Seq<char>,
    second_value: Seq<char>,
    post: Seq<Seq<char>>,
)
    requires
        reads_as_flags(pre),
        accepted_pair(first_flag, first_value),
        accepted_pair(second_flag, second_value),
        first_flag != second_flag,
    ensures
        spec_runtime_config(pre + seq![first_flag, first_value, second_flag, second_value] + post)
            == spec_runtime_config(
            pre + seq![second_flag, second_value, first_flag, first_value] + post,
        ),
{
    reveal_strlit("--headless-png");
    reveal_strlit("--delay-ms");
    reveal_strlit("--debug-view");
    assert("--headless-png"@.len() == 14);
    assert("--delay-ms"@.len() == 10);
    assert("--debug-view"@.len() == 12);
    let start: ScannedFlags = (None, None, None);
    let n = pre.len() as int;
    let forward_rest = seq![first_flag, first_value, second_flag, second_value] + post;
    let backward_rest = seq![second_flag, second_value, first_flag, first_value] + post;
    let forward = pre + forward_rest;
    let backward = pre + backward_rest;
    assert(pre + seq![first_flag, first_value, second_flag, second_value] + post =~= forward);
    assert(pre + seq![second_flag, second_value, first_flag, first_value] + post =~= backward);
    lemma_scan_prefix(pre, forward_rest, 0, start);
    lemma_scan_prefix(pre, backward_rest, 0, start);
    let flags = scan_args(pre, 0, start)->Ok_0;
    assert(forward[n] == first_flag && forward[n + 1] == first_value);
    assert(forward[n + 2] == second_flag && forward[n + 3] == second_value);
    assert(backward[n] == second_flag && backward[n + 1] == second_value);
    assert(backward[n + 2] == first_flag && backward[n + 3] == first_value);
    let forward_flags = after_pair(after_pair(flags, first_flag, first_value), second_flag, second_value);
    let backward_flags = after_pair(after_pair(flags, second_flag, second_value), first_flag, first_value);
    lemma_scan_pair(forward, n, flags);
    lemma_scan_pair(forward, n + 2, after_pair(flags, first_flag, first_value));
    lemma_scan_pair(backward, n, flags);
    lemma_scan_pair(backward, n + 2, after_pair(flags, second_flag, second_value));
    assert(forward_flags == backward_flags);
    assert forall|k: int| n + 4 <= k < forward.len() implies forward[k] == backward[k] by {
        assert(forward[k] == post[k - n - 4]);
        assert(backward[k] == post[k - n - 4]);
    }
    lemma_scan_reads_only_the_rest(forward, backward, n + 4, forward_flags);
}

} // verus!
