//! Command-line grammar and the stable CLI error envelope.
//!
//! The host collects the process arguments and environment; this module decides what
//! they mean.

use vstd::prelude::*;

use crate::canonical::{owned, parse_u32_at, parse_u32_spec, push_str};
use crate::render::OutputFormat;
use crate::runtime::ConversionOptions;
use crate::text::{chars_equal_at, chars_of, decimal, push_decimal};

verus! {

/// Version tag of the CLI error envelope.
pub const CLI_ERROR_VERSION: &'static str = "ferrodoc-cli-error/1";

/// Process exit status on success.
pub const EXIT_SUCCESS: u8 = 0;

/// Process exit status on failure.
pub const EXIT_ERROR: u8 = 2;

/// Category and message of a CLI failure.
#[derive(Debug, Clone, PartialEq, Eq)]
pub struct CliErrorBody {
    /// Stable failure category.
    pub category: String,
    /// Human-readable message.
    pub message: String,
}

/// Versioned JSON error envelope written by the CLI.
#[derive(Debug, Clone, PartialEq, Eq)]
pub struct CliErrorEnvelope {
    /// Envelope schema version.
    pub schema_version: String,
    /// The failure.
    pub error: CliErrorBody,
}

impl CliErrorEnvelope {
    /// Creates an envelope of the current version.
    pub fn new(category: &str, message: &str) -> (e: Self)
        ensures
            e.schema_version@ == CLI_ERROR_VERSION@,
            e.error.category@ == category@,
            e.error.message@ == message@,
    {
        CliErrorEnvelope {
            schema_version: owned(CLI_ERROR_VERSION),
            error: CliErrorBody { category: owned(category), message: owned(message) },
        }
    }
}

/// One command-line argument: its text when it is valid Unicode, else its raw bytes.
#[derive(Debug, Clone, PartialEq, Eq)]
pub enum Argument {
    /// Valid Unicode text.
    Text(String),
    /// Bytes that are not valid Unicode.
    Raw(Vec<u8>),
}

/// The text of an argument, when it is Unicode.
pub open spec fn arg_text(a: Argument) -> Option<Seq<char>> {
    match a {
        Argument::Text(s) => Some(s@),
        Argument::Raw(_) => None,
    }
}

/// An argument as a path: its text, or its raw bytes.
pub open spec fn arg_path(a: Argument) -> Result<Seq<char>, Seq<u8>> {
    match a {
        Argument::Text(s) => Ok(s@),
        Argument::Raw(b) => Err(b@),
    }
}

/// A parsed CLI command.
#[derive(Debug, Clone, PartialEq, Eq)]
pub enum Command {
    /// Print the version.
    Version,
    /// Print the implementation status.
    Status,
    /// Convert a PDF.
    Convert(ConvertArgs),
    /// Inspect a PDF.
    Inspect {
        /// Input path.
        input: Argument,
    },
    /// Print the conversion plan.
    Plan(PipelineArgs),
    /// Print the conversion trace.
    Explain(PipelineArgs),
    /// Print the hardware inventory.
    Hardware,
}

/// Options shared by the pipeline commands.
#[derive(Debug, Clone, PartialEq, Eq)]
pub struct PipelineArgs {
    /// Input PDF path.
    pub input: String,
    /// Directory holding the OCRS model pair.
    pub model_dir: Option<Argument>,
    /// Native character threshold override.
    pub native_threshold: Option<u32>,
    /// OCR DPI override.
    pub ocr_dpi: Option<u32>,
    /// OCR engine override.
    pub ocr_engine: Option<String>,
}

/// Options of the convert command.
#[derive(Debug, Clone, PartialEq, Eq)]
pub struct ConvertArgs {
    /// Shared pipeline options.
    pub pipeline: PipelineArgs,
    /// Output path; standard output when absent.
    pub output: Option<Argument>,
    /// Output format.
    pub format: OutputFormat,
}

/// An argument error with its message.
#[derive(Debug, Clone, PartialEq, Eq)]
pub struct ArgsError(String);

impl ArgsError {
    /// The message text.
    pub closed spec fn message(&self) -> Seq<char> {
        self.0@
    }

    /// The message.
    pub fn to_string(&self) -> (s: String)
        ensures
            s@ == self.message(),
    {
        self.0.clone()
    }
}

/// The Debug rendering of a string: quoted, with escapes.
pub uninterp spec fn debug_text(s: Seq<char>) -> Seq<char>;

/// Formats `s` with `{:?}`, which quotes it and escapes characters as `str`'s `Debug`
/// implementation does.
#[verifier::external_body]
pub(crate) fn debug_quoted(s: &str) -> (r: String)
    ensures
        r@ == debug_text(s@),
{
    format!("{:?}", s)
}

/// The usage line.
pub open spec fn usage_text() -> Seq<char> {
    "usage: ferrodoc --version | status | hardware | inspect <input.pdf> | plan <input.pdf> [options] | explain <input.pdf> [options] | convert <input.pdf> [-o output] [--format markdown|html|json] [options]"@
}

fn usage() -> (s: String)
    ensures
        s@ == usage_text(),
{
    owned(
        "usage: ferrodoc --version | status | hardware | inspect <input.pdf> | plan <input.pdf> [options] | explain <input.pdf> [options] | convert <input.pdf> [-o output] [--format markdown|html|json] [options]",
    )
}

/// The output format a name selects.
pub open spec fn format_named(s: Seq<char>) -> Option<OutputFormat> {
    if s == "markdown"@ || s == "md"@ {
        Some(OutputFormat::Markdown)
    } else if s == "html"@ {
        Some(OutputFormat::Html)
    } else if s == "json"@ || s == "evidence-json"@ {
        Some(OutputFormat::EvidenceJson)
    } else {
        None
    }
}

/// Pipeline option state: input, model directory, threshold, DPI, engine, output, format.
pub type PipelineScan = (
    Option<Seq<char>>,
    Option<Result<Seq<char>, Seq<u8>>>,
    Option<u32>,
    Option<u32>,
    Option<Seq<char>>,
    Option<Result<Seq<char>, Seq<u8>>>,
    OutputFormat,
);

/// The state before any option: nothing set, Markdown output.
pub open spec fn scan_start() -> PipelineScan {
    (None, None, None, None, None, None, OutputFormat::Markdown)
}

/// The value after option `v` at `i`, as text; the error when it is missing or not Unicode.
pub open spec fn next_text(args: Seq<Argument>, i: int, v: Seq<char>) -> Result<Seq<char>, Seq<char>> {
    if i + 1 >= args.len() {
        Err("missing value for "@ + v)
    } else {
        match arg_text(args[i + 1]) {
            Some(t) => Ok(t),
            None => Err("value for "@ + v + " must be valid UTF-8"@),
        }
    }
}

/// The numeric value after option `v` at `i`, or the error refusing it.
pub open spec fn next_number(args: Seq<Argument>, i: int, v: Seq<char>) -> Result<u32, Seq<char>> {
    match next_text(args, i, v) {
        Err(e) => Err(e),
        Ok(t) => match parse_u32_spec(t) {
            Some(n) => Ok(n),
            None => Err("value for "@ + v + " must be an unsigned integer"@),
        },
    }
}

/// The pipeline options from position `i` on, applied to `st`, or the first error.
pub open spec fn pipeline_scan(args: Seq<Argument>, i: int, allow_output: bool, st: PipelineScan) -> Result<
    PipelineScan,
    Seq<char>,
>
    decreases args.len() - i,
{
    if i < 0 || i >= args.len() {
        Ok(st)
    } else {
        match arg_text(args[i]) {
            None => Err("arguments must be valid UTF-8"@),
            Some(v) => if allow_output && (v == "-o"@ || v == "--output"@) {
                if i + 1 >= args.len() {
                    Err("missing value for "@ + v)
                } else {
                    pipeline_scan(
                        args,
                        i + 2,
                        allow_output,
                        (st.0, st.1, st.2, st.3, st.4, Some(arg_path(args[i + 1])), st.6),
                    )
                }
            } else if allow_output && v == "--format"@ {
                match next_text(args, i, v) {
                    Err(e) => Err(e),
                    Ok(f) => match format_named(f) {
                        Some(fmt) => pipeline_scan(
                            args,
                            i + 2,
                            allow_output,
                            (st.0, st.1, st.2, st.3, st.4, st.5, fmt),
                        ),
                        None => Err("unsupported output format "@ + debug_text(f)),
                    },
                }
            } else if v == "--ocrs-model-dir"@ {
                if i + 1 >= args.len() {
                    Err("missing value for "@ + v)
                } else {
                    pipeline_scan(
                        args,
                        i + 2,
                        allow_output,
                        (st.0, Some(arg_path(args[i + 1])), st.2, st.3, st.4, st.5, st.6),
                    )
                }
            } else if v == "--native-threshold"@ {
                match next_number(args, i, v) {
                    Err(e) => Err(e),
                    Ok(n) => pipeline_scan(
                        args,
                        i + 2,
                        allow_output,
                        (st.0, st.1, Some(n), st.3, st.4, st.5, st.6),
                    ),
                }
            } else if v == "--ocr-dpi"@ {
                match next_number(args, i, v) {
                    Err(e) => Err(e),
                    Ok(n) => pipeline_scan(
                        args,
                        i + 2,
                        allow_output,
                        (st.0, st.1, st.2, Some(n), st.4, st.5, st.6),
                    ),
                }
            } else if v == "--ocr-engine"@ {
                match next_text(args, i, v) {
                    Err(e) => Err(e),
                    Ok(t) => pipeline_scan(
                        args,
                        i + 2,
                        allow_output,
                        (st.0, st.1, st.2, st.3, Some(t), st.5, st.6),
                    ),
                }
            } else if v.len() > 0 && v[0] == '-' {
                Err("unknown option "@ + debug_text(v))
            } else if st.0 is None {
                pipeline_scan(args, i + 1, allow_output, (Some(v), st.1, st.2, st.3, st.4, st.5, st.6))
            } else {
                Err("unexpected argument "@ + debug_text(v))
            },
        }
    }
}

/// The pipeline options of `args`, or the error; an input is required.
pub open spec fn pipeline_result(args: Seq<Argument>, allow_output: bool) -> Result<PipelineScan, Seq<char>> {
    match pipeline_scan(args, 0, allow_output, scan_start()) {
        Err(e) => Err(e),
        Ok(st) => if st.0 is None {
            Err("missing input PDF"@)
        } else {
            Ok(st)
        },
    }
}

/// An optional path argument as a path view.
pub open spec fn opt_path(a: Option<Argument>) -> Option<Result<Seq<char>, Seq<u8>>> {
    match a {
        Some(x) => Some(arg_path(x)),
        None => None,
    }
}

/// An optional string as text.
pub open spec fn opt_text(a: Option<String>) -> Option<Seq<char>> {
    match a {
        Some(x) => Some(x@),
        None => None,
    }
}

/// The scan state that pipeline arguments, output, and format amount to.
pub open spec fn scan_of(p: PipelineArgs, output: Option<Argument>, format: OutputFormat) -> PipelineScan {
    (
        Some(p.input@),
        opt_path(p.model_dir),
        p.native_threshold,
        p.ocr_dpi,
        opt_text(p.ocr_engine),
        opt_path(output),
        format,
    )
}

/// The pipeline options of a scan state, without the output and format.
pub open spec fn pipeline_part(st: PipelineScan) -> (
    Option<Seq<char>>,
    Option<Result<Seq<char>, Seq<u8>>>,
    Option<u32>,
    Option<u32>,
    Option<Seq<char>>,
) {
    (st.0, st.1, st.2, st.3, st.4)
}

/// True when `s` holds exactly the literal.
fn is_text(s: &String, lit: &str) -> (r: bool)
    ensures
        r == (s@ == lit@),
{
    let v = chars_of(s.as_str());
    assert(v@.subrange(0, v@.len() as int) == v@);
    chars_equal_at(v.as_slice(), 0, v.len(), lit)
}

/// A copy of an argument.
fn copy_argument(a: &Argument) -> (r: Argument)
    ensures
        arg_path(r) == arg_path(*a),
{
    match a {
        Argument::Text(s) => Argument::Text(s.clone()),
        Argument::Raw(b) => {
            let mut c: Vec<u8> = Vec::new();
            let mut i: usize = 0;
            while i < b.len()
                invariant
                    i <= b@.len(),
                    c@ == b@.take(i as int),
                decreases b@.len() - i,
            {
                c.push(b[i]);
                assert(b@.take(i + 1) == b@.take(i as int).push(b@[i as int]));
                i = i + 1;
            }
            assert(b@.take(i as int) == b@);
            Argument::Raw(c)
        },
    }
}

/// The error with message `prefix` followed by `text`.
fn args_error_with(prefix: &str, text: &str) -> (e: ArgsError)
    ensures
        e.message() == prefix@ + text@,
{
    let mut s = owned(prefix);
    push_str(&mut s, text);
    ArgsError(s)
}

/// The error with message `prefix`, `text`, then `suffix`.
fn args_error(prefix: &str, text: &str, suffix: &str) -> (e: ArgsError)
    ensures
        e.message() == prefix@ + text@ + suffix@,
{
    let mut s = owned(prefix);
    push_str(&mut s, text);
    push_str(&mut s, suffix);
    ArgsError(s)
}

/// The text of the value after option `v` at `index`.
fn next_string(args: &[Argument], index: usize, v: &String) -> (r: Result<String, ArgsError>)
    requires
        index < args@.len(),
    ensures
        match next_text(args@, index as int, v@) {
            Ok(t) => r matches Ok(s) && s@ == t,
            Err(m) => r matches Err(e) && e.message() == m,
        },
{
    if index >= args.len() - 1 {
        return Err(args_error_with("missing value for ", v.as_str()));
    }
    match &args[index + 1] {
        Argument::Text(s) => Ok(s.clone()),
        Argument::Raw(_) => Err(args_error("value for ", v.as_str(), " must be valid UTF-8")),
    }
}

/// The number after option `v` at `index`.
fn next_u32(args: &[Argument], index: usize, v: &String) -> (r: Result<u32, ArgsError>)
    requires
        index < args@.len(),
    ensures
        match next_number(args@, index as int, v@) {
            Ok(n) => r == Ok::<u32, ArgsError>(n),
            Err(m) => r matches Err(e) && e.message() == m,
        },
{
    let s = match next_string(args, index, v) {
        Ok(s) => s,
        Err(e) => return Err(e),
    };
    let c = chars_of(s.as_str());
    assert(c@.subrange(0, c@.len() as int) == c@);
    match parse_u32_at(c.as_slice(), 0, c.len()) {
        Some(n) => Ok(n),
        None => Err(args_error("value for ", v.as_str(), " must be an unsigned integer")),
    }
}

/// Parses the options of a pipeline command.
fn parse_pipeline(args: &[Argument], allow_output: bool) -> (r: Result<
    (PipelineArgs, Option<Argument>, OutputFormat),
    ArgsError,
>)
    ensures
        match pipeline_result(args@, allow_output) {
            Ok(st) => r matches Ok((p, o, f)) && scan_of(p, o, f) == st,
            Err(m) => r matches Err(e) && e.message() == m,
        },
{
    let mut input: Option<String> = None;
    let mut model_dir: Option<Argument> = None;
    let mut native_threshold: Option<u32> = None;
    let mut ocr_dpi: Option<u32> = None;
    let mut ocr_engine: Option<String> = None;
    let mut output: Option<Argument> = None;
    let mut format = OutputFormat::Markdown;
    let mut index: usize = 0;
    while index < args.len()
        invariant
            index <= args@.len(),
            pipeline_scan(args@, 0, allow_output, scan_start()) == pipeline_scan(
                args@,
                index as int,
                allow_output,
                (
                    opt_text(input),
                    opt_path(model_dir),
                    native_threshold,
                    ocr_dpi,
                    opt_text(ocr_engine),
                    opt_path(output),
                    format,
                ),
            ),
        decreases args@.len() - index,
    {
        let value = match &args[index] {
            Argument::Text(s) => s,
            Argument::Raw(_) => {
                return Err(ArgsError(owned("arguments must be valid UTF-8")));
            },
        };
        if allow_output && (is_text(value, "-o") || is_text(value, "--output")) {
            if index >= args.len() - 1 {
                return Err(args_error_with("missing value for ", value.as_str()));
            }
            output = Some(copy_argument(&args[index + 1]));
            index = index + 2;
        } else if allow_output && is_text(value, "--format") {
            let name = match next_string(args, index, value) {
                Ok(s) => s,
                Err(e) => return Err(e),
            };
            if is_text(&name, "markdown") || is_text(&name, "md") {
                format = OutputFormat::Markdown;
            } else if is_text(&name, "html") {
                format = OutputFormat::Html;
            } else if is_text(&name, "json") || is_text(&name, "evidence-json") {
                format = OutputFormat::EvidenceJson;
            } else {
                let quoted = debug_quoted(name.as_str());
                return Err(args_error_with("unsupported output format ", quoted.as_str()));
            }
            index = index + 2;
        } else if is_text(value, "--ocrs-model-dir") {
            if index >= args.len() - 1 {
                return Err(args_error_with("missing value for ", value.as_str()));
            }
            model_dir = Some(copy_argument(&args[index + 1]));
            index = index + 2;
        } else if is_text(value, "--native-threshold") {
            match next_u32(args, index, value) {
                Ok(n) => native_threshold = Some(n),
                Err(e) => return Err(e),
            }
            index = index + 2;
        } else if is_text(value, "--ocr-dpi") {
            match next_u32(args, index, value) {
                Ok(n) => ocr_dpi = Some(n),
                Err(e) => return Err(e),
            }
            index = index + 2;
        } else if is_text(value, "--ocr-engine") {
            match next_string(args, index, value) {
                Ok(s) => ocr_engine = Some(s),
                Err(e) => return Err(e),
            }
            index = index + 2;
        } else {
            let v = chars_of(value.as_str());
            if v.len() > 0 && v[0] == '-' {
                let quoted = debug_quoted(value.as_str());
                return Err(args_error_with("unknown option ", quoted.as_str()));
            }
            if input.is_none() {
                input = Some(value.clone());
                index = index + 1;
            } else {
                let quoted = debug_quoted(value.as_str());
                return Err(args_error_with("unexpected argument ", quoted.as_str()));
            }
        }
    }
    let input = match input {
        Some(i) => i,
        None => return Err(ArgsError(owned("missing input PDF"))),
    };
    Ok(
        (
            PipelineArgs { input, model_dir, native_threshold, ocr_dpi, ocr_engine },
            output,
            format,
        ),
    )
}

/// The command `args` denote, or the error: its shape, then the pipeline options.
pub open spec fn command_spec_ok(args: Seq<Argument>, c: Command) -> bool {
    match c {
        Command::Version => args.len() == 1 && (arg_text(args[0]) == Some("--version"@) || arg_text(
            args[0],
        ) == Some("-V"@)),
        Command::Status => args.len() == 1 && arg_text(args[0]) == Some("status"@),
        Command::Hardware => args.len() == 1 && arg_text(args[0]) == Some("hardware"@),
        Command::Inspect { input } => args.len() == 2 && arg_text(args[0]) == Some("inspect"@)
            && arg_path(input) == arg_path(args[1]),
        Command::Convert(a) => arg_text(args[0]) == Some("convert"@) && pipeline_result(
            args.skip(1),
            true,
        ) == Ok::<PipelineScan, Seq<char>>(scan_of(a.pipeline, a.output, a.format)),
        Command::Plan(p) => arg_text(args[0]) == Some("plan"@) && (pipeline_result(args.skip(1), false) matches Ok(st)
            && pipeline_part(st) == pipeline_part(scan_of(p, None, OutputFormat::Markdown))),
        Command::Explain(p) => arg_text(args[0]) == Some("explain"@) && (pipeline_result(
            args.skip(1),
            false,
        ) matches Ok(st) && pipeline_part(st) == pipeline_part(scan_of(p, None, OutputFormat::Markdown))),
    }
}

/// The error `args` are refused with, if any.
pub open spec fn command_error(args: Seq<Argument>) -> Option<Seq<char>> {
    if args.len() == 0 || arg_text(args[0]) is None {
        Some(usage_text())
    } else {
        let c = arg_text(args[0])->0;
        if (c == "--version"@ || c == "-V"@ || c == "status"@ || c == "hardware"@) && args.len() == 1 {
            None
        } else if c == "inspect"@ {
            if args.len() != 2 {
                Some("usage: ferrodoc inspect <input.pdf>"@)
            } else {
                None
            }
        } else if c == "convert"@ {
            match pipeline_result(args.skip(1), true) {
                Err(e) => Some(e),
                Ok(_) => None,
            }
        } else if c == "plan"@ || c == "explain"@ {
            match pipeline_result(args.skip(1), false) {
                Err(e) => Some(e),
                Ok(_) => None,
            }
        } else {
            Some(usage_text())
        }
    }
}

/// Parses the CLI arguments that follow the program name.
pub fn parse_from(args: &[Argument]) -> (r: Result<Command, ArgsError>)
    ensures
        match command_error(args@) {
            Some(m) => r matches Err(e) && e.message() == m,
            None => r matches Ok(c) && command_spec_ok(args@, c),
        },
{
    if args.len() == 0 {
        return Err(ArgsError(usage()));
    }
    let command = match &args[0] {
        Argument::Text(s) => s,
        Argument::Raw(_) => return Err(ArgsError(usage())),
    };
    let single = args.len() == 1;
    if (is_text(command, "--version") || is_text(command, "-V")) && single {
        return Ok(Command::Version);
    }
    if is_text(command, "status") && single {
        return Ok(Command::Status);
    }
    if is_text(command, "hardware") && single {
        return Ok(Command::Hardware);
    }
    let rest = args.split_at(1).1;
    assert(rest@ == args@.skip(1));
    if is_text(command, "inspect") {
        if args.len() != 2 {
            return Err(ArgsError(owned("usage: ferrodoc inspect <input.pdf>")));
        }
        return Ok(Command::Inspect { input: copy_argument(&args[1]) });
    }
    if is_text(command, "convert") {
        return match parse_pipeline(rest, true) {
            Ok((pipeline, output, format)) => Ok(Command::Convert(ConvertArgs { pipeline, output, format })),
            Err(e) => Err(e),
        };
    }
    if is_text(command, "plan") {
        return match parse_pipeline(rest, false) {
            Ok((pipeline, _, _)) => Ok(Command::Plan(pipeline)),
            Err(e) => Err(e),
        };
    }
    if is_text(command, "explain") {
        return match parse_pipeline(rest, false) {
            Ok((pipeline, _, _)) => Ok(Command::Explain(pipeline)),
            Err(e) => Err(e),
        };
    }
    Err(ArgsError(usage()))
}

/// An environment variable as the host found it.
#[derive(Debug, Clone, PartialEq, Eq)]
pub enum EnvValue {
    /// The variable is not set.
    Absent,
    /// The variable holds Unicode text.
    Present(String),
    /// The variable is set but is not valid Unicode.
    NotUnicode,
}

/// The environment variables the configuration reads.
#[derive(Debug, Clone, PartialEq, Eq)]
pub struct Environment {
    /// `FERRODOC_NATIVE_CHARACTER_THRESHOLD`.
    pub native_character_threshold: EnvValue,
    /// `FERRODOC_OCR_DPI`.
    pub ocr_dpi: EnvValue,
    /// `FERRODOC_OCRS_MODEL_DIR`.
    pub ocrs_model_dir: EnvValue,
    /// `FERRODOC_CACHE_DIR`.
    pub cache_dir: EnvValue,
    /// `FERRODOC_OCR_ENGINE`.
    pub ocr_engine: EnvValue,
}

/// Why a configuration was refused.
#[derive(Debug, Clone, PartialEq, Eq)]
pub enum ConfigurationError {
    /// An environment variable is not valid Unicode.
    NonUnicode {
        /// Variable name.
        name: &'static str,
    },
    /// A value is not acceptable.
    Invalid {
        /// Setting name.
        name: &'static str,
        /// Rejected value.
        value: String,
        /// Stable explanation.
        reason: &'static str,
    },
}

/// Resolved settings of one pipeline command.
#[derive(Debug, Clone, PartialEq, Eq)]
pub struct Configuration {
    /// Input PDF path.
    pub input: String,
    /// Directory holding the OCRS model pair.
    pub model_dir: Option<Argument>,
    /// Conversion policy.
    pub options: ConversionOptions,
    /// Stage cache directory.
    pub cache_dir: Option<String>,
}

/// An environment number: absent, a `u32`, or the error refusing it.
pub open spec fn env_number(name: Seq<char>, v: EnvValue) -> Result<Option<u32>, (Seq<char>, Option<Seq<char>>)> {
    match v {
        EnvValue::Absent => Ok(None),
        EnvValue::NotUnicode => Err((name, None)),
        EnvValue::Present(s) => match parse_u32_spec(s@) {
            Some(n) => Ok(Some(n)),
            None => Err((name, Some(s@))),
        },
    }
}

/// The error of a configuration: the setting name and, for an invalid value, the value
/// (none for a variable that is not Unicode).
pub type ConfigurationFault = (Seq<char>, Option<Seq<char>>);

/// The view of a configuration error.
pub open spec fn fault_of(e: ConfigurationError) -> ConfigurationFault {
    match e {
        ConfigurationError::NonUnicode { name } => (name@, None),
        ConfigurationError::Invalid { name, value, .. } => (name@, Some(value@)),
    }
}

/// A value first from the argument, else from the environment, else the default.
pub open spec fn first_of(a: Option<u32>, b: Option<u32>, d: u32) -> u32 {
    match a {
        Some(x) => x,
        None => match b {
            Some(y) => y,
            None => d,
        },
    }
}

/// The engine chosen: the argument, else the environment, else `ocrs`.
pub open spec fn engine_choice(args: PipelineArgs, env: EnvValue) -> Seq<char> {
    match args.ocr_engine {
        Some(e) => e@,
        None => match env {
            EnvValue::Present(s) => s@,
            _ => "ocrs"@,
        },
    }
}

/// What loading a configuration yields: the refusal, in checking order (the threshold
/// variable, the DPI variable, the model and cache directory variables, the engine
/// variable, the engine, the DPI range), or the threshold and DPI chosen.
pub open spec fn configuration_outcome(args: PipelineArgs, env: Environment) -> Result<(u32, u32), ConfigurationFault> {
    match env_number("FERRODOC_NATIVE_CHARACTER_THRESHOLD"@, env.native_character_threshold) {
        Err(f) => Err(f),
        Ok(threshold) => match env_number("FERRODOC_OCR_DPI"@, env.ocr_dpi) {
            Err(f) => Err(f),
            Ok(dpi) => if env.ocrs_model_dir is NotUnicode {
                Err(("FERRODOC_OCRS_MODEL_DIR"@, None))
            } else if env.cache_dir is NotUnicode {
                Err(("FERRODOC_CACHE_DIR"@, None))
            } else if env.ocr_engine is NotUnicode {
                Err(("FERRODOC_OCR_ENGINE"@, None))
            } else if engine_choice(args, env.ocr_engine) != "ocrs"@ {
                Err(("OCR engine"@, Some(engine_choice(args, env.ocr_engine))))
            } else {
                let t = first_of(args.native_threshold, threshold, 80);
                let d = first_of(args.ocr_dpi, dpi, 144);
                if !(72 <= d <= 300) {
                    Err(("OCR DPI"@, Some(decimal(d as nat))))
                } else {
                    Ok((t, d))
                }
            },
        },
    }
}

/// Reads one numeric environment variable.
fn env_u32(name: &'static str, v: &EnvValue) -> (r: Result<Option<u32>, ConfigurationError>)
    ensures
        match env_number(name@, *v) {
            Ok(n) => r == Ok::<Option<u32>, ConfigurationError>(n),
            Err(f) => r matches Err(e) && fault_of(e) == f,
        },
{
    match v {
        EnvValue::Absent => Ok(None),
        EnvValue::NotUnicode => Err(ConfigurationError::NonUnicode { name }),
        EnvValue::Present(s) => {
            let c = chars_of(s.as_str());
            assert(c@.subrange(0, c@.len() as int) == c@);
            match parse_u32_at(c.as_slice(), 0, c.len()) {
                Some(n) => Ok(Some(n)),
                None => Err(
                    ConfigurationError::Invalid {
                        name,
                        value: s.clone(),
                        reason: "expected an unsigned integer",
                    },
                ),
            }
        },
    }
}

impl Configuration {
    /// Resolves pipeline arguments against the environment: arguments win over the
    /// environment, which wins over the defaults; only the `ocrs` engine is accepted,
    /// and the DPI must lie from 72 through 300.
    pub fn load(arguments: PipelineArgs, env: &Environment) -> (r: Result<Self, ConfigurationError>)
        ensures
            match configuration_outcome(arguments, *env) {
                Err(f) => r matches Err(e) && fault_of(e) == f,
                Ok((threshold, dpi)) => r matches Ok(c) && {
                    &&& c.input@ == arguments.input@
                    &&& c.options.native_character_threshold == threshold
                    &&& c.options.ocr_dpi == dpi
                    &&& c.options.pdf_limits.maximum_pages == 10_000
                    &&& match arguments.model_dir {
                        Some(m) => c.model_dir matches Some(x) && arg_path(x) == arg_path(m),
                        None => match env.ocrs_model_dir {
                            EnvValue::Present(s) => c.model_dir matches Some(x) && arg_path(x) == Ok::<
                                Seq<char>,
                                Seq<u8>,
                            >(s@),
                            _ => c.model_dir is None,
                        },
                    }
                    &&& match env.cache_dir {
                        EnvValue::Present(s) => c.cache_dir matches Some(x) && x@ == s@,
                        _ => c.cache_dir is None,
                    }
                },
            },
    {
        let env_threshold = match env_u32("FERRODOC_NATIVE_CHARACTER_THRESHOLD", &env.native_character_threshold) {
            Ok(v) => v,
            Err(e) => return Err(e),
        };
        let env_dpi = match env_u32("FERRODOC_OCR_DPI", &env.ocr_dpi) {
            Ok(v) => v,
            Err(e) => return Err(e),
        };
        let env_model_dir = match &env.ocrs_model_dir {
            EnvValue::Absent => None,
            EnvValue::Present(s) => Some(Argument::Text(s.clone())),
            EnvValue::NotUnicode => {
                return Err(ConfigurationError::NonUnicode { name: "FERRODOC_OCRS_MODEL_DIR" });
            },
        };
        let env_cache_dir = match &env.cache_dir {
            EnvValue::Absent => None,
            EnvValue::Present(s) => Some(s.clone()),
            EnvValue::NotUnicode => {
                return Err(ConfigurationError::NonUnicode { name: "FERRODOC_CACHE_DIR" });
            },
        };
        let env_engine = match &env.ocr_engine {
            EnvValue::Absent => None,
            EnvValue::Present(s) => Some(s.clone()),
            EnvValue::NotUnicode => {
                return Err(ConfigurationError::NonUnicode { name: "FERRODOC_OCR_ENGINE" });
            },
        };
        let engine = match arguments.ocr_engine {
            Some(e) => e,
            None => match env_engine {
                Some(e) => e,
                None => owned("ocrs"),
            },
        };
        if !is_text(&engine, "ocrs") {
            return Err(
                ConfigurationError::Invalid {
                    name: "OCR engine",
                    value: engine,
                    reason: "Phase 2 supports only ocrs",
                },
            );
        }
        let mut options = ConversionOptions::default();
        options.native_character_threshold = match arguments.native_threshold {
            Some(t) => t,
            None => match env_threshold {
                Some(t) => t,
                None => options.native_character_threshold,
            },
        };
        options.ocr_dpi = match arguments.ocr_dpi {
            Some(d) => d,
            None => match env_dpi {
                Some(d) => d,
                None => options.ocr_dpi,
            },
        };
        if !(72 <= options.ocr_dpi && options.ocr_dpi <= 300) {
            let mut value = String::new();
            push_decimal(&mut value, options.ocr_dpi as u64);
            return Err(
                ConfigurationError::Invalid {
                    name: "OCR DPI",
                    value,
                    reason: "expected an integer from 72 through 300",
                },
            );
        }
        let model_dir = match arguments.model_dir {
            Some(m) => Some(m),
            None => env_model_dir,
        };
        proof {
            reveal_strlit("FERRODOC_OCRS_MODEL_DIR");
            reveal_strlit("FERRODOC_CACHE_DIR");
            reveal_strlit("FERRODOC_OCR_ENGINE");
        }
        Ok(Configuration { input: arguments.input, model_dir, options, cache_dir: env_cache_dir })
    }
}

} // verus!
