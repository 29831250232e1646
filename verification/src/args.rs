use vstd::prelude::*;
use vstd::string::{StrSliceExecFns, StringExecFns};

use crate::origin::{parse_uri, parsed_uri, uri_view, UriSummary, UriSummaryView};

verus! {

/// Settings of the tiled renderer's command line.
#[derive(Debug, Clone)]
pub struct RendererArgs {
    /// Origin of the render worker.
    pub worker: String,
    /// Image width in pixels.
    pub width: u32,
    /// Image height in pixels.
    pub height: u32,
    /// Edge length of a tile in pixels.
    pub tile_size: u32,
    /// Maximum Mandelbrot iterations per pixel.
    pub max_iterations: u32,
    /// Path of the PNG file to write.
    pub output: String,
}

/// `RendererArgs` as mathematical values.
pub struct RendererArgsView {
    pub worker: Seq<char>,
    pub width: u32,
    pub height: u32,
    pub tile_size: u32,
    pub max_iterations: u32,
    pub output: Seq<char>,
}

impl View for RendererArgs {
    type V = RendererArgsView;

    open spec fn view(&self) -> RendererArgsView {
        RendererArgsView {
            worker: self.worker@,
            width: self.width,
            height: self.height,
            tile_size: self.tile_size,
            max_iterations: self.max_iterations,
            output: self.output@,
        }
    }
}

/// What the command line asks for.
#[derive(Debug, Clone)]
pub enum ParsedArgs {
    /// Print the usage and stop.
    Help,
    /// Render with these settings.
    Run(RendererArgs),
}

/// Why the command line is refused.
#[derive(Debug, Clone)]
pub enum ArgsError {
    /// The flag comes last, without its value.
    MissingValue(String),
    /// The value of `--worker` is not a URI.
    InvalidWorker,
    /// The value of `--width` is not a `u32`.
    InvalidWidth,
    /// The value of `--height` is not a `u32`.
    InvalidHeight,
    /// The value of `--tile-size` is not a `u32`.
    InvalidTileSize,
    /// The value of `--max-iterations` is not a `u32`.
    InvalidIterations,
    /// The flag is not one the renderer knows.
    UnknownArgument(String),
    /// The worker URI lacks a scheme or an authority.
    WorkerNotAbsolute,
}

/// `ArgsError` as mathematical values.
pub enum ArgsErrorView {
    MissingValue(Seq<char>),
    InvalidWorker,
    InvalidWidth,
    InvalidHeight,
    InvalidTileSize,
    InvalidIterations,
    UnknownArgument(Seq<char>),
    WorkerNotAbsolute,
}

impl View for ArgsError {
    type V = ArgsErrorView;

    open spec fn view(&self) -> ArgsErrorView {
        match self {
            ArgsError::MissingValue(flag) => ArgsErrorView::MissingValue(flag@),
            ArgsError::InvalidWorker => ArgsErrorView::InvalidWorker,
            ArgsError::InvalidWidth => ArgsErrorView::InvalidWidth,
            ArgsError::InvalidHeight => ArgsErrorView::InvalidHeight,
            ArgsError::InvalidTileSize => ArgsErrorView::InvalidTileSize,
            ArgsError::InvalidIterations => ArgsErrorView::InvalidIterations,
            ArgsError::UnknownArgument(flag) => ArgsErrorView::UnknownArgument(flag@),
            ArgsError::WorkerNotAbsolute => ArgsErrorView::WorkerNotAbsolute,
        }
    }
}

/// The outcome of parsing as mathematical values: `Ok(None)` asks for the
/// usage, `Ok(Some(args))` to render.
pub open spec fn parse_outcome_view(outcome: Result<ParsedArgs, ArgsError>) -> Result<
    Option<RendererArgsView>,
    ArgsErrorView,
> {
    match outcome {
        Ok(ParsedArgs::Help) => Ok(None),
        Ok(ParsedArgs::Run(args)) => Ok(Some(args@)),
        Err(error) => Err(error@),
    }
}

/// Whether `c` is an ASCII decimal digit.
pub open spec fn is_decimal_digit(c: char) -> bool {
    '0' <= c <= '9'
}

/// The number that a string of decimal digits denotes.
pub open spec fn decimal_value(digits: Seq<char>) -> int
    decreases digits.len(),
{
    if digits.len() == 0 {
        0
    } else {
        decimal_value(digits.drop_last()) * 10 + (digits.last() as int - '0' as int)
    }
}

/// The digits of a number's text: without one leading `+`.
pub open spec fn unsigned_digits(text: Seq<char>) -> Seq<char> {
    if text.len() > 0 && text[0] == '+' {
        text.drop_first()
    } else {
        text
    }
}

/// How `u32`'s `FromStr` reads `text`: an optional `+`, then one or more
/// decimal digits whose value fits in a `u32`.
pub open spec fn parsed_u32(text: Seq<char>) -> Option<u32> {
    let digits = unsigned_digits(text);
    if digits.len() > 0 && (forall|i: int| 0 <= i < digits.len() ==> is_decimal_digit(#[trigger] digits[i]))
        && decimal_value(digits) <= u32::MAX {
        Some(decimal_value(digits) as u32)
    } else {
        None
    }
}

/// A longer string of digits denotes at least as much as its prefix.
proof fn lemma_decimal_value_grows(digits: Seq<char>, prefix_len: int)
    requires
        0 <= prefix_len <= digits.len(),
        forall|i: int| 0 <= i < digits.len() ==> is_decimal_digit(#[trigger] digits[i]),
    ensures
        decimal_value(digits.subrange(0, prefix_len)) <= decimal_value(digits),
        0 <= decimal_value(digits),
    decreases digits.len(),
{
    if digits.len() > 0 {
        let shorter = digits.drop_last();
        assert(is_decimal_digit(digits[digits.len() - 1]));
        if prefix_len < digits.len() {
            assert(shorter.subrange(0, prefix_len) =~= digits.subrange(0, prefix_len));
            lemma_decimal_value_grows(shorter, prefix_len);
        } else {
            assert(digits.subrange(0, prefix_len) =~= digits);
            lemma_decimal_value_grows(shorter, 0);
        }
    } else {
        assert(digits.subrange(0, prefix_len) =~= digits);
    }
}

/// Reads `text` as a `u32` the way `u32`'s `FromStr` does.
pub fn parse_u32(text: &str) -> (value: Option<u32>)
    ensures
        value == parsed_u32(text@),
{
    let length = text.unicode_len();
    let mut start: usize = 0;
    if length > 0 && text.get_char(0) == '+' {
        start = 1;
    }
    let ghost digits = unsigned_digits(text@);
    assert(digits =~= text@.subrange(start as int, text@.len() as int));
    if start == length {
        return None;
    }
    let mut value: u64 = 0;
    let mut i = start;
    while i < length
        invariant
            start <= i <= length,
            length == text@.len(),
            digits == text@.subrange(start as int, length as int),
            digits == unsigned_digits(text@),
            value <= u32::MAX,
            value == decimal_value(digits.subrange(0, i - start)),
            forall|k: int| 0 <= k < i - start ==> is_decimal_digit(#[trigger] digits[k]),
        decreases length - i,
    {
        let c = text.get_char(i);
        if !('0' <= c && c <= '9') {
            assert(!is_decimal_digit(digits[i - start]));
            assert(!(forall|k: int| 0 <= k < digits.len() ==> is_decimal_digit(#[trigger] digits[k])));
            assert(parsed_u32(text@) is None);
            return None;
        }
        let digit = (c as u64) - ('0' as u64);
        assert(digits.subrange(0, i + 1 - start).drop_last() =~= digits.subrange(0, i - start));
        value = value * 10 + digit;
        assert(value == decimal_value(digits.subrange(0, i + 1 - start)));
        if value > 4294967295 {
            proof {
                if forall|k: int| 0 <= k < digits.len() ==> is_decimal_digit(#[trigger] digits[k]) {
                    lemma_decimal_value_grows(digits, i + 1 - start);
                }
            }
            assert(parsed_u32(text@) is None);
            return None;
        }
        i = i + 1;
    }
    assert(digits.subrange(0, length - start) =~= digits);
    Some(value as u32)
}

/// Whether two strings are equal.
fn same_text(a: &str, b: &str) -> (same: bool)
    ensures
        same == (a@ == b@),
{
    let length = a.unicode_len();
    if length != b.unicode_len() {
        return false;
    }
    let mut i: usize = 0;
    while i < length
        invariant
            i <= length,
            length == a@.len(),
            length == b@.len(),
            forall|k: int| 0 <= k < i ==> a@[k] == b@[k],
        decreases length - i,
    {
        if a.get_char(i) != b.get_char(i) {
            return false;
        }
        i = i + 1;
    }
    assert(a@ =~= b@);
    true
}

/// The settings when no flag is given.
pub open spec fn default_renderer_args() -> RendererArgsView {
    RendererArgsView {
        worker: "http://127.0.0.1:8080"@,
        width: 1024,
        height: 1024,
        tile_size: 128,
        max_iterations: 500,
        output: "target/mandelbrot.png"@,
    }
}

/// The settings after flag `flag` with value `value`.
pub open spec fn apply_flag(args: RendererArgsView, flag: Seq<char>, value: Seq<char>) -> Result<
    RendererArgsView,
    ArgsErrorView,
> {
    apply_flag_parsed(args, flag, value, parsed_uri(value))
}

/// The settings after flag `flag` with value `value`, where `parsed` is what
/// the URI parser makes of `value`; only `--worker` reads it.
pub open spec fn apply_flag_parsed(
    args: RendererArgsView,
    flag: Seq<char>,
    value: Seq<char>,
    parsed: Option<UriSummaryView>,
) -> Result<RendererArgsView, ArgsErrorView> {
    if flag == "--worker"@ {
        if parsed is Some {
            Ok(RendererArgsView { worker: value, ..args })
        } else {
            Err(ArgsErrorView::InvalidWorker)
        }
    } else if flag == "--width"@ {
        match parsed_u32(value) {
            Some(n) => Ok(RendererArgsView { width: n, ..args }),
            None => Err(ArgsErrorView::InvalidWidth),
        }
    } else if flag == "--height"@ {
        match parsed_u32(value) {
            Some(n) => Ok(RendererArgsView { height: n, ..args }),
            None => Err(ArgsErrorView::InvalidHeight),
        }
    } else if flag == "--tile-size"@ {
        match parsed_u32(value) {
            Some(n) => Ok(RendererArgsView { tile_size: n, ..args }),
            None => Err(ArgsErrorView::InvalidTileSize),
        }
    } else if flag == "--max-iterations"@ {
        match parsed_u32(value) {
            Some(n) => Ok(RendererArgsView { max_iterations: n, ..args }),
            None => Err(ArgsErrorView::InvalidIterations),
        }
    } else if flag == "--output"@ {
        Ok(RendererArgsView { output: value, ..args })
    } else {
        Err(ArgsErrorView::UnknownArgument(flag))
    }
}

/// Whether `after` keeps every setting of `before` that flag `flag` does not
/// name.
pub open spec fn keeps_other_settings(before: RendererArgsView, after: RendererArgsView, flag: Seq<char>) -> bool {
    &&& flag != "--worker"@ ==> after.worker == before.worker
    &&& flag != "--width"@ ==> after.width == before.width
    &&& flag != "--height"@ ==> after.height == before.height
    &&& flag != "--tile-size"@ ==> after.tile_size == before.tile_size
    &&& flag != "--max-iterations"@ ==> after.max_iterations == before.max_iterations
    &&& flag != "--output"@ ==> after.output == before.output
}

/// The setting that a numeric flag names, in `args`.
pub open spec fn numeric_setting(args: RendererArgsView, flag: Seq<char>) -> u32 {
    if flag == "--width"@ {
        args.width
    } else if flag == "--height"@ {
        args.height
    } else if flag == "--tile-size"@ {
        args.tile_size
    } else {
        args.max_iterations
    }
}

/// Whether `flag` is one of the flags that take a `u32`.
pub open spec fn is_numeric_flag(flag: Seq<char>) -> bool {
    flag == "--width"@ || flag == "--height"@ || flag == "--tile-size"@ || flag == "--max-iterations"@
}

/// Law: each flag changes only its own setting. A flag that succeeds keeps
/// every other setting; a numeric flag succeeds exactly when its value reads
/// as a `u32`, and then sets its setting to that number; `--output` always
/// succeeds and sets the output to its value; `--worker` succeeds exactly
/// when its value parses, and sets the worker to its value; any other flag is
/// refused as unknown.
pub proof fn lemma_flag_sets_only_its_setting(
    args: RendererArgsView,
    flag: Seq<char>,
    value: Seq<char>,
    parsed: Option<UriSummaryView>,
)
    ensures
        apply_flag_parsed(args, flag, value, parsed) matches Ok(next) ==> keeps_other_settings(
            args,
            next,
            flag,
        ),
        is_numeric_flag(flag) ==> (apply_flag_parsed(args, flag, value, parsed) is Ok <==> parsed_u32(
            value,
        ) is Some),
        is_numeric_flag(flag) ==> (apply_flag_parsed(args, flag, value, parsed) matches Ok(next)
            ==> Some(numeric_setting(next, flag)) == parsed_u32(value)),
        flag == "--output"@ ==> (apply_flag_parsed(args, flag, value, parsed) matches Ok(next)
            && next.output == value),
        flag == "--worker"@ ==> (apply_flag_parsed(args, flag, value, parsed) is Ok <==> parsed is Some),
        flag == "--worker"@ ==> (apply_flag_parsed(args, flag, value, parsed) matches Ok(next)
            ==> next.worker == value),
        !is_numeric_flag(flag) && flag != "--output"@ && flag != "--worker"@ ==> (apply_flag_parsed(
            args,
            flag,
            value,
            parsed,
        ) matches Err(ArgsErrorView::UnknownArgument(unknown)) && unknown == flag),
{
    reveal_strlit("--worker");
    reveal_strlit("--width");
    reveal_strlit("--height");
    reveal_strlit("--tile-size");
    reveal_strlit("--max-iterations");
    reveal_strlit("--output");
    let names = seq!["--worker"@, "--width"@, "--height"@, "--tile-size"@, "--max-iterations"@, "--output"@];
    assert forall|i: int, j: int| 0 <= i < j < 6 implies names[i] != names[j] by {
        if names[i].len() == names[j].len() {
            assert(names[i][2] != names[j][2]);
        }
    }
}

/// Whether the worker URI has a scheme and an authority.
pub open spec fn worker_is_absolute(worker: Seq<char>) -> bool {
    parsed_worker_is_absolute(parsed_uri(worker))
}

/// Whether a parsed worker URI has a scheme and an authority.
pub open spec fn parsed_worker_is_absolute(parsed: Option<UriSummaryView>) -> bool {
    parsed matches Some(uri) && uri.scheme is Some && uri.authority is Some
}

/// One step of reading the command line as mathematical values.
pub open spec fn step_view(step: Result<RendererArgs, ArgsError>) -> Result<RendererArgsView, ArgsErrorView> {
    match step {
        Ok(args) => Ok(args@),
        Err(error) => Err(error@),
    }
}

/// The outcome of the flags in `rest`, read in pairs from the settings `args`:
/// a help flag stops at once, a flag without a value or with a bad value is
/// an error, and at the end the worker URI must be absolute.
pub open spec fn parse_flags(args: RendererArgsView, rest: Seq<Seq<char>>) -> Result<
    Option<RendererArgsView>,
    ArgsErrorView,
>
    decreases rest.len(),
{
    if rest.len() == 0 {
        if worker_is_absolute(args.worker) {
            Ok(Some(args))
        } else {
            Err(ArgsErrorView::WorkerNotAbsolute)
        }
    } else if rest[0] == "--help"@ || rest[0] == "-h"@ {
        Ok(None)
    } else if rest.len() == 1 {
        Err(ArgsErrorView::MissingValue(rest[0]))
    } else {
        match apply_flag(args, rest[0], rest[1]) {
            Ok(next) => parse_flags(next, rest.subrange(2, rest.len() as int)),
            Err(error) => Err(error),
        }
    }
}

/// The outcome of the renderer's command line `argv` (without the program name).
pub open spec fn renderer_command_line(argv: Seq<Seq<char>>) -> Result<
    Option<RendererArgsView>,
    ArgsErrorView,
> {
    if parsed_uri(default_renderer_args().worker) is None {
        Err(ArgsErrorView::InvalidWorker)
    } else {
        parse_flags(default_renderer_args(), argv)
    }
}

/// The texts of a list of strings.
pub open spec fn texts(strings: Seq<String>) -> Seq<Seq<char>> {
    strings.map_values(|s: String| s@)
}

/// Reads the renderer's command line `argv` (without the program name).
pub fn parse_renderer_args(argv: &Vec<String>) -> (outcome: Result<ParsedArgs, ArgsError>)
    ensures
        parse_outcome_view(outcome) == renderer_command_line(texts(argv@)),
{
    let ghost all = texts(argv@);
    let mut args = RendererArgs {
        worker: String::from_str("http://127.0.0.1:8080"),
        width: 1024,
        height: 1024,
        tile_size: 128,
        max_iterations: 500,
        output: String::from_str("target/mandelbrot.png"),
    };
    let mut worker_uri: UriSummary = match parse_uri(args.worker.as_str()) {
        Some(uri) => uri,
        None => return Err(ArgsError::InvalidWorker),
    };
    assert(args@ == default_renderer_args());
    assert(all.subrange(0, all.len() as int) =~= all);
    let mut i: usize = 0;
    while i < argv.len()
        invariant
            i <= argv@.len(),
            all == texts(argv@),
            parsed_uri(args.worker@) == Some(worker_uri@),
            renderer_command_line(all) == parse_flags(args@, all.subrange(i as int, all.len() as int)),
        decreases argv@.len() - i,
    {
        let ghost rest = all.subrange(i as int, all.len() as int);
        let flag = argv[i].as_str();
        assert(rest[0] == flag@);
        if same_text(flag, "--help") || same_text(flag, "-h") {
            return Ok(ParsedArgs::Help);
        }
        if i + 1 >= argv.len() {
            return Err(ArgsError::MissingValue(argv[i].clone()));
        }
        let value = argv[i + 1].as_str();
        assert(rest[1] == value@);
        assert(rest.subrange(2, rest.len() as int) =~= all.subrange(i + 2, all.len() as int));
        let parsed: Option<UriSummary> = if same_text(flag, "--worker") {
            parse_uri(value)
        } else {
            None
        };
        proof {
            if flag@ == "--worker"@ {
                assert(uri_view(parsed) == parsed_uri(value@));
            }
        }
        let is_worker = parsed.is_some();
        args = match apply_flag_with(args, flag, value, &parsed) {
            Ok(next) => next,
            Err(error) => return Err(error),
        };
        if is_worker {
            match parsed {
                Some(uri) => worker_uri = uri,
                None => {},
            }
        }
        i = i + 2;
    }
    assert(all.subrange(i as int, all.len() as int).len() == 0);
    match finish_args(args, &worker_uri) {
        Ok(args) => Ok(ParsedArgs::Run(args)),
        Err(error) => Err(error),
    }
}

/// Applies flag `flag` with value `value` to the settings, given what the
/// URI parser made of `value` (only `--worker` reads it).
pub fn apply_flag_with(
    args: RendererArgs,
    flag: &str,
    value: &str,
    parsed: &Option<UriSummary>,
) -> (next: Result<RendererArgs, ArgsError>)
    ensures
        step_view(next) == apply_flag_parsed(args@, flag@, value@, uri_view(*parsed)),
        next matches Ok(settings) ==> keeps_other_settings(args@, settings@, flag@),
{
    proof {
        lemma_flag_sets_only_its_setting(args@, flag@, value@, uri_view(*parsed));
    }
    let mut args = args;
    if same_text(flag, "--worker") {
        if parsed.is_none() {
            return Err(ArgsError::InvalidWorker);
        }
        args.worker = String::from_str(value);
    } else if same_text(flag, "--width") {
        match parse_u32(value) {
            Some(n) => args.width = n,
            None => return Err(ArgsError::InvalidWidth),
        }
    } else if same_text(flag, "--height") {
        match parse_u32(value) {
            Some(n) => args.height = n,
            None => return Err(ArgsError::InvalidHeight),
        }
    } else if same_text(flag, "--tile-size") {
        match parse_u32(value) {
            Some(n) => args.tile_size = n,
            None => return Err(ArgsError::InvalidTileSize),
        }
    } else if same_text(flag, "--max-iterations") {
        match parse_u32(value) {
            Some(n) => args.max_iterations = n,
            None => return Err(ArgsError::InvalidIterations),
        }
    } else if same_text(flag, "--output") {
        args.output = String::from_str(value);
    } else {
        return Err(ArgsError::UnknownArgument(String::from_str(flag)));
    }
    Ok(args)
}

/// Accepts the settings once every flag is read, given the parsed worker
/// URI: it must have a scheme and an authority.
pub fn finish_args(args: RendererArgs, worker: &UriSummary) -> (finished: Result<RendererArgs, ArgsError>)
    ensures
        step_view(finished) == if parsed_worker_is_absolute(Some(worker@)) {
            Ok(args@)
        } else {
            Err(ArgsErrorView::WorkerNotAbsolute)
        },
{
    if worker.scheme.is_none() || worker.authority.is_none() {
        return Err(ArgsError::WorkerNotAbsolute);
    }
    Ok(args)
}

} // verus!
