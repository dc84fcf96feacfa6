//! The command line: what each argument list asks for, or why it is refused.

use vstd::prelude::*;

use crate::matting::{str_opt_view, Background};
use crate::paths::{ascii_lower_seq, eq_ignore_ascii_case, extension_of, file_extension, file_name_of, path_file_name};
use crate::text::{has_dash_prefix, is_literal, is_digit, parse_unsigned, starts_with_dash, unsigned_value};

verus! {

/// The text printed for a malformed command line.
pub const USAGE: &'static str = "Usage:\n  apple-matting-cli <input-image> [-o|--output <output-png>] [--crop] [--background <color>]\n  apple-matting-cli --batch <input-dir> -o <output-dir> [--crop] [--background <color>] [--recursive] [--jobs <count>]\n  apple-matting-cli --server [--port <port>]\n  apple-matting-cli --version";

/// The port the server listens on when none is given.
pub const DEFAULT_SERVER_PORT: u16 = 8080;

/// The number of batch workers when none is given.
pub const DEFAULT_BATCH_JOBS: usize = 3;

/// The largest number of batch workers accepted.
pub const MAX_BATCH_JOBS: usize = 64;

/// What a command line asks for.
#[derive(Debug, PartialEq, Eq)]
pub enum CliArgs {
    Help,
    Version,
    Batch {
        input_dir: String,
        output_dir: String,
        crop_to_subject: bool,
        recursive: bool,
        jobs: usize,
        background: Background,
    },
    Run {
        input_path: String,
        output_path: Option<String>,
        crop_to_subject: bool,
        background: Background,
    },
    Server { port: u16 },
}

/// [`CliArgs`] with its strings seen as character sequences.
pub enum CliArgsView {
    Help,
    Version,
    Batch {
        input_dir: Seq<char>,
        output_dir: Seq<char>,
        crop_to_subject: bool,
        recursive: bool,
        jobs: usize,
        background: Background,
    },
    Run {
        input_path: Seq<char>,
        output_path: Option<Seq<char>>,
        crop_to_subject: bool,
        background: Background,
    },
    Server { port: u16 },
}

/// The characters of an optional string.
pub open spec fn string_opt_view(o: Option<String>) -> Option<Seq<char>> {
    match o {
        Some(s) => Some(s@),
        None => None,
    }
}

impl View for CliArgs {
    type V = CliArgsView;

    open spec fn view(&self) -> CliArgsView {
        match self {
            CliArgs::Help => CliArgsView::Help,
            CliArgs::Version => CliArgsView::Version,
            CliArgs::Batch { input_dir, output_dir, crop_to_subject, recursive, jobs, background } =>
                CliArgsView::Batch {
                input_dir: input_dir@,
                output_dir: output_dir@,
                crop_to_subject: *crop_to_subject,
                recursive: *recursive,
                jobs: *jobs,
                background: *background,
            },
            CliArgs::Run { input_path, output_path, crop_to_subject, background } =>
                CliArgsView::Run {
                input_path: input_path@,
                output_path: string_opt_view(*output_path),
                crop_to_subject: *crop_to_subject,
                background: *background,
            },
            CliArgs::Server { port } => CliArgsView::Server { port: *port },
        }
    }
}

/// A parse outcome with its strings seen as character sequences.
pub open spec fn outcome_view<T: View>(r: Result<T, String>) -> Result<T::V, Seq<char>> {
    match r {
        Ok(v) => Ok(v@),
        Err(e) => Err(e@),
    }
}

/// Whether `c` is a hexadecimal digit.
pub open spec fn is_hex_digit(c: char) -> bool {
    is_digit(c) || ('a' <= c && c <= 'f') || ('A' <= c && c <= 'F')
}

/// The number that a hexadecimal digit stands for.
pub open spec fn hex_value(c: char) -> int {
    if is_digit(c) {
        c as int - '0' as int
    } else if 'a' <= c && c <= 'f' {
        c as int - 'a' as int + 10
    } else {
        c as int - 'A' as int + 10
    }
}

/// The byte written by two hexadecimal digits.
pub open spec fn hex_byte(hi: char, lo: char) -> u8 {
    (hex_value(hi) * 16 + hex_value(lo)) as u8
}

/// The background that a color argument names: `transparent`, `white`,
/// `black`, or `#RRGGBB` in hexadecimal digits of either case.
pub open spec fn background_from(s: Seq<char>) -> Option<Background> {
    if s == "transparent"@ {
        Some(Background::Transparent)
    } else if s == "white"@ {
        Some(Background::Solid { red: 255, green: 255, blue: 255 })
    } else if s == "black"@ {
        Some(Background::Solid { red: 0, green: 0, blue: 0 })
    } else if s.len() == 7 && s[0] == '#' && (forall|i: int|
        1 <= i < 7 ==> is_hex_digit(#[trigger] s[i])) {
        Some(
            Background::Solid {
                red: hex_byte(s[1], s[2]),
                green: hex_byte(s[3], s[4]),
                blue: hex_byte(s[5], s[6]),
            },
        )
    } else {
        None
    }
}

/// The message for a color argument that names no background.
pub open spec fn background_error(s: Seq<char>) -> Seq<char> {
    "Invalid background color: "@ + s + ". Use transparent, white, black, or #RRGGBB"@
}

fn hex_digit(c: char) -> (res: Option<u8>)
    ensures
        res matches Some(v) ==> is_hex_digit(c) && v == hex_value(c),
        res is None ==> !is_hex_digit(c),
{
    if '0' <= c && c <= '9' {
        Some((c as u32 - '0' as u32) as u8)
    } else if 'a' <= c && c <= 'f' {
        Some((c as u32 - 'a' as u32 + 10) as u8)
    } else if 'A' <= c && c <= 'F' {
        Some((c as u32 - 'A' as u32 + 10) as u8)
    } else {
        None
    }
}

fn hex_pair(s: &str, i: usize) -> (res: Option<u8>)
    requires
        i + 1 < s@.len(),
        i < 7,
    ensures
        res matches Some(v) ==> is_hex_digit(s@[i as int]) && is_hex_digit(s@[i + 1]) && v
            == hex_byte(s@[i as int], s@[i + 1]),
        res is None ==> !(is_hex_digit(s@[i as int]) && is_hex_digit(s@[i + 1])),
{
    let hi = match hex_digit(s.get_char(i)) {
        Some(v) => v,
        None => return None,
    };
    let lo = match hex_digit(s.get_char(i + 1)) {
        Some(v) => v,
        None => return None,
    };
    Some(hi * 16 + lo)
}

/// Reads a background color argument.
pub fn parse_background(value: &str) -> (res: Result<Background, String>)
    ensures
        match res {
            Ok(b) => background_from(value@) == Some(b),
            Err(e) => background_from(value@) is None && e@ == background_error(value@),
        },
{
    let v = String::from_str(value);
    if is_literal(&v, "transparent") {
        return Ok(Background::Transparent);
    }
    if is_literal(&v, "white") {
        return Ok(Background::Solid { red: 255, green: 255, blue: 255 });
    }
    if is_literal(&v, "black") {
        return Ok(Background::Solid { red: 0, green: 0, blue: 0 });
    }
    if value.unicode_len() == 7 && value.get_char(0) == '#' {
        let r = hex_pair(value, 1);
        let g = hex_pair(value, 3);
        let b = hex_pair(value, 5);
        match (r, g, b) {
            (Some(red), Some(green), Some(blue)) => {
                assert(forall|i: int| 1 <= i < 7 ==> is_hex_digit(#[trigger] value@[i])) by {
                    assert forall|i: int| 1 <= i < 7 implies is_hex_digit(#[trigger] value@[i]) by {
                        if i == 1 || i == 3 || i == 5 {
                        } else {
                        }
                    }
                }
                return Ok(Background::Solid { red, green, blue });
            },
            _ => {
                assert(!(forall|i: int| 1 <= i < 7 ==> is_hex_digit(#[trigger] value@[i])));
            },
        }
    }
    let mut msg = String::from_str("Invalid background color: ");
    msg.append(value);
    msg.append(". Use transparent, white, black, or #RRGGBB");
    Err(msg)
}

} // verus!

verus! {

/// The arguments of a command line, each as a character sequence.
pub open spec fn arg_views(args: &[String]) -> Seq<Seq<char>> {
    args@.map_values(|a: String| a@)
}

/// The refusal of a malformed command line.
pub open spec fn usage_error() -> Result<CliArgsView, Seq<char>> {
    Err(USAGE@)
}

/// The value that follows the option at `i`: it must exist and must not
/// itself look like a flag.
pub open spec fn option_value_of(args: Seq<Seq<char>>, i: int) -> Option<Seq<char>> {
    if i + 1 < args.len() && !starts_with_dash(args[i + 1]) {
        Some(args[i + 1])
    } else {
        None
    }
}

/// What a `--jobs` value means: a worker count from 1 to [`MAX_BATCH_JOBS`],
/// or the message that refuses it.
pub open spec fn jobs_from(v: Seq<char>) -> Result<usize, Seq<char>> {
    match unsigned_value(v, usize::MAX as nat) {
        None => Err("Invalid jobs count: "@ + v),
        Some(n) => if 1 <= n <= 64 {
            Ok(n as usize)
        } else {
            Err("Jobs count must be between 1 and 64"@)
        },
    }
}

/// The single-image command line from argument `i` on, given what the
/// arguments before it set.
pub open spec fn run_scan(
    args: Seq<Seq<char>>,
    i: int,
    crop: bool,
    input: Option<Seq<char>>,
    output: Option<Seq<char>>,
    background: Option<Background>,
) -> Result<CliArgsView, Seq<char>>
    decreases args.len() - i,
{
    if i >= args.len() || i < 0 {
        match input {
            None => usage_error(),
            Some(path) => Ok(
                CliArgsView::Run {
                    input_path: path,
                    output_path: output,
                    crop_to_subject: crop,
                    background: match background {
                        Some(b) => b,
                        None => Background::Transparent,
                    },
                },
            ),
        }
    } else {
        let a = args[i];
        if a == "--crop"@ {
            run_scan(args, i + 1, true, input, output, background)
        } else if a == "-o"@ || a == "--output"@ {
            if input is None || output is Some || i + 1 >= args.len() || starts_with_dash(
                args[i + 1],
            ) {
                usage_error()
            } else {
                run_scan(args, i + 2, crop, input, Some(args[i + 1]), background)
            }
        } else if a == "--background"@ {
            match option_value_of(args, i) {
                None => usage_error(),
                Some(v) => match background_from(v) {
                    None => Err(background_error(v)),
                    Some(b) => if background is Some {
                        usage_error()
                    } else {
                        run_scan(args, i + 2, crop, input, output, Some(b))
                    },
                },
            }
        } else if starts_with_dash(a) {
            usage_error()
        } else if input is None {
            run_scan(args, i + 1, crop, Some(a), output, background)
        } else if output is None {
            run_scan(args, i + 1, crop, input, Some(a), background)
        } else {
            usage_error()
        }
    }
}

/// The server command line from argument `i` on, with the port set so far.
pub open spec fn server_scan(args: Seq<Seq<char>>, i: int, port: u16) -> Result<
    CliArgsView,
    Seq<char>,
>
    decreases args.len() - i,
{
    if i >= args.len() || i < 0 {
        Ok(CliArgsView::Server { port })
    } else {
        let a = args[i];
        if a == "--server"@ {
            server_scan(args, i + 1, port)
        } else if a == "-p"@ || a == "--port"@ {
            if i + 1 >= args.len() {
                usage_error()
            } else {
                match unsigned_value(args[i + 1], u16::MAX as nat) {
                    None => Err("Invalid port: "@ + args[i + 1]),
                    Some(p) => server_scan(args, i + 2, p as u16),
                }
            }
        } else {
            usage_error()
        }
    }
}

/// The batch command line from argument `i` on, given what the arguments
/// before it set.
pub open spec fn batch_scan(
    args: Seq<Seq<char>>,
    i: int,
    input: Option<Seq<char>>,
    output: Option<Seq<char>>,
    crop: bool,
    recursive: bool,
    jobs: usize,
    background: Option<Background>,
) -> Result<CliArgsView, Seq<char>>
    decreases args.len() - i,
{
    if i >= args.len() || i < 0 {
        match (input, output) {
            (Some(inp), Some(out)) => Ok(
                CliArgsView::Batch {
                    input_dir: inp,
                    output_dir: out,
                    crop_to_subject: crop,
                    recursive,
                    jobs,
                    background: match background {
                        Some(b) => b,
                        None => Background::Transparent,
                    },
                },
            ),
            _ => usage_error(),
        }
    } else {
        let a = args[i];
        if a == "--batch"@ {
            match option_value_of(args, i) {
                None => usage_error(),
                Some(v) => if input is Some {
                    usage_error()
                } else {
                    batch_scan(args, i + 2, Some(v), output, crop, recursive, jobs, background)
                },
            }
        } else if a == "-o"@ || a == "--output"@ {
            match option_value_of(args, i) {
                None => usage_error(),
                Some(v) => if output is Some {
                    usage_error()
                } else {
                    batch_scan(args, i + 2, input, Some(v), crop, recursive, jobs, background)
                },
            }
        } else if a == "--crop"@ {
            batch_scan(args, i + 1, input, output, true, recursive, jobs, background)
        } else if a == "-r"@ || a == "--recursive"@ {
            batch_scan(args, i + 1, input, output, crop, true, jobs, background)
        } else if a == "-j"@ || a == "--jobs"@ {
            match option_value_of(args, i) {
                None => usage_error(),
                Some(v) => match jobs_from(v) {
                    Err(e) => Err(e),
                    Ok(n) => batch_scan(args, i + 2, input, output, crop, recursive, n, background),
                },
            }
        } else if a == "--background"@ {
            match option_value_of(args, i) {
                None => usage_error(),
                Some(v) => match background_from(v) {
                    None => Err(background_error(v)),
                    Some(b) => if background is Some {
                        usage_error()
                    } else {
                        batch_scan(args, i + 2, input, output, crop, recursive, jobs, Some(b))
                    },
                },
            }
        } else {
            usage_error()
        }
    }
}

/// Whether `flag` occurs among the arguments after the program name.
pub open spec fn has_flag(args: Seq<Seq<char>>, flag: Seq<char>) -> bool {
    exists|i: int| 1 <= i < args.len() && args[i] == flag
}

/// What a whole command line asks for. The first argument is the program
/// name. A lone `-h`/`--help` or `-V`/`--version` asks for help or the
/// version; `--server` and `--batch` select those modes and exclude each
/// other; anything else is a single-image command.
pub open spec fn cli_parse(args: Seq<Seq<char>>) -> Result<CliArgsView, Seq<char>> {
    if args.len() == 2 && (args[1] == "-h"@ || args[1] == "--help"@) {
        Ok(CliArgsView::Help)
    } else if args.len() == 2 && (args[1] == "-V"@ || args[1] == "--version"@) {
        Ok(CliArgsView::Version)
    } else {
        let server = has_flag(args, "--server"@);
        let batch = has_flag(args, "--batch"@);
        if server && batch {
            usage_error()
        } else if server {
            server_scan(args, 1, DEFAULT_SERVER_PORT)
        } else if batch {
            batch_scan(args, 1, None, None, false, false, DEFAULT_BATCH_JOBS, None)
        } else {
            run_scan(args, 1, false, None, None, None)
        }
    }
}

fn usage() -> (res: String)
    ensures
        res@ == USAGE@,
{
    String::from_str(USAGE)
}

fn contains_flag(args: &[String], flag: &str) -> (res: bool)
    ensures
        res == has_flag(arg_views(args), flag@),
{
    let mut i: usize = 1;
    while i < args.len()
        invariant
            1 <= i,
            forall|j: int| 1 <= j < i && j < args@.len() ==> args@[j]@ != flag@,
        decreases args.len() - i,
    {
        if is_literal(&args[i], flag) {
            assert(arg_views(args)[i as int] == flag@);
            return true;
        }
        i = i + 1;
    }
    assert forall|j: int| 1 <= j < arg_views(args).len() implies arg_views(args)[j] != flag@ by {
        assert(arg_views(args)[j] == args@[j]@);
    }
    false
}

fn option_value(args: &[String], index: usize) -> (res: Result<String, String>)
    ensures
        match res {
            Ok(v) => option_value_of(arg_views(args), index as int) == Some(v@),
            Err(e) => option_value_of(arg_views(args), index as int) is None && e@ == USAGE@,
        },
{
    if index >= args.len() || index + 1 >= args.len() {
        return Err(usage());
    }
    let value = &args[index + 1];
    if has_dash_prefix(value.as_str()) {
        return Err(usage());
    }
    Ok(value.clone())
}

fn parse_jobs(value: &str) -> (res: Result<usize, String>)
    ensures
        match res {
            Ok(n) => jobs_from(value@) == Ok::<usize, Seq<char>>(n),
            Err(e) => jobs_from(value@) == Err::<usize, Seq<char>>(e@),
        },
{
    match parse_unsigned(value, usize::MAX) {
        None => {
            let mut msg = String::from_str("Invalid jobs count: ");
            msg.append(value);
            Err(msg)
        },
        Some(n) => if 1 <= n && n <= MAX_BATCH_JOBS {
            Ok(n)
        } else {
            Err(String::from_str("Jobs count must be between 1 and 64"))
        },
    }
}

} // verus!

verus! {

fn parse_run_args(args: &[String]) -> (res: Result<CliArgs, String>)
    ensures
        outcome_view(res) == run_scan(arg_views(args), 1, false, None, None, None),
{
    let ghost av = arg_views(args);
    let mut crop_to_subject = false;
    let mut input_path: Option<String> = None;
    let mut output_path: Option<String> = None;
    let mut background: Option<Background> = None;
    let mut index: usize = 1;
    while index < args.len()
        invariant
            av == arg_views(args),
            run_scan(av, 1, false, None, None, None) == run_scan(
                av,
                index as int,
                crop_to_subject,
                string_opt_view(input_path),
                string_opt_view(output_path),
                background,
            ),
        decreases args.len() - index,
    {
        let arg = &args[index];
        assert(av[index as int] == arg@);
        if is_literal(arg, "--crop") {
            crop_to_subject = true;
            index += 1;
        } else if is_literal(arg, "-o") || is_literal(arg, "--output") {
            if input_path.is_none() || output_path.is_some() || index + 1 >= args.len() {
                return Err(usage());
            }
            let value = &args[index + 1];
            assert(av[index + 1] == value@);
            if has_dash_prefix(value.as_str()) {
                return Err(usage());
            }
            output_path = Some(value.clone());
            index += 2;
        } else if is_literal(arg, "--background") {
            let value = match option_value(args, index) {
                Ok(v) => v,
                Err(e) => return Err(e),
            };
            let color = match parse_background(value.as_str()) {
                Ok(c) => c,
                Err(e) => return Err(e),
            };
            if background.is_some() {
                return Err(usage());
            }
            background = Some(color);
            index += 2;
        } else if has_dash_prefix(arg.as_str()) {
            return Err(usage());
        } else if input_path.is_none() {
            input_path = Some(arg.clone());
            index += 1;
        } else if output_path.is_none() {
            output_path = Some(arg.clone());
            index += 1;
        } else {
            return Err(usage());
        }
    }
    match input_path {
        None => Err(usage()),
        Some(path) => Ok(
            CliArgs::Run {
                input_path: path,
                output_path,
                crop_to_subject,
                background: match background {
                    Some(b) => b,
                    None => Background::Transparent,
                },
            },
        ),
    }
}

fn parse_server_args(args: &[String]) -> (res: Result<CliArgs, String>)
    ensures
        outcome_view(res) == server_scan(arg_views(args), 1, DEFAULT_SERVER_PORT),
{
    let ghost av = arg_views(args);
    let mut port: u16 = DEFAULT_SERVER_PORT;
    let mut index: usize = 1;
    while index < args.len()
        invariant
            av == arg_views(args),
            server_scan(av, 1, DEFAULT_SERVER_PORT) == server_scan(av, index as int, port),
        decreases args.len() - index,
    {
        let arg = &args[index];
        assert(av[index as int] == arg@);
        if is_literal(arg, "--server") {
            index += 1;
        } else if is_literal(arg, "-p") || is_literal(arg, "--port") {
            if index + 1 >= args.len() {
                return Err(usage());
            }
            let value = &args[index + 1];
            assert(av[index + 1] == value@);
            match parse_unsigned(value.as_str(), 65535) {
                None => {
                    let mut msg = String::from_str("Invalid port: ");
                    msg.append(value.as_str());
                    return Err(msg);
                },
                Some(p) => {
                    port = p as u16;
                },
            }
            index += 2;
        } else {
            return Err(usage());
        }
    }
    Ok(CliArgs::Server { port })
}

fn parse_batch_args(args: &[String]) -> (res: Result<CliArgs, String>)
    ensures
        outcome_view(res) == batch_scan(
            arg_views(args),
            1,
            None,
            None,
            false,
            false,
            DEFAULT_BATCH_JOBS,
            None,
        ),
{
    let ghost av = arg_views(args);
    let mut input_dir: Option<String> = None;
    let mut output_dir: Option<String> = None;
    let mut crop_to_subject = false;
    let mut recursive = false;
    let mut jobs: usize = DEFAULT_BATCH_JOBS;
    let mut background: Option<Background> = None;
    let mut index: usize = 1;
    while index < args.len()
        invariant
            av == arg_views(args),
            batch_scan(av, 1, None, None, false, false, DEFAULT_BATCH_JOBS, None) == batch_scan(
                av,
                index as int,
                string_opt_view(input_dir),
                string_opt_view(output_dir),
                crop_to_subject,
                recursive,
                jobs,
                background,
            ),
        decreases args.len() - index,
    {
        let arg = &args[index];
        assert(av[index as int] == arg@);
        if is_literal(arg, "--batch") {
            let value = match option_value(args, index) {
                Ok(v) => v,
                Err(e) => return Err(e),
            };
            if input_dir.is_some() {
                return Err(usage());
            }
            input_dir = Some(value);
            index += 2;
        } else if is_literal(arg, "-o") || is_literal(arg, "--output") {
            let value = match option_value(args, index) {
                Ok(v) => v,
                Err(e) => return Err(e),
            };
            if output_dir.is_some() {
                return Err(usage());
            }
            output_dir = Some(value);
            index += 2;
        } else if is_literal(arg, "--crop") {
            crop_to_subject = true;
            index += 1;
        } else if is_literal(arg, "-r") || is_literal(arg, "--recursive") {
            recursive = true;
            index += 1;
        } else if is_literal(arg, "-j") || is_literal(arg, "--jobs") {
            let value = match option_value(args, index) {
                Ok(v) => v,
                Err(e) => return Err(e),
            };
            jobs = match parse_jobs(value.as_str()) {
                Ok(n) => n,
                Err(e) => return Err(e),
            };
            index += 2;
        } else if is_literal(arg, "--background") {
            let value = match option_value(args, index) {
                Ok(v) => v,
                Err(e) => return Err(e),
            };
            let color = match parse_background(value.as_str()) {
                Ok(c) => c,
                Err(e) => return Err(e),
            };
            if background.is_some() {
                return Err(usage());
            }
            background = Some(color);
            index += 2;
        } else {
            return Err(usage());
        }
    }
    match (input_dir, output_dir) {
        (Some(input_dir), Some(output_dir)) => Ok(
            CliArgs::Batch {
                input_dir,
                output_dir,
                crop_to_subject,
                recursive,
                jobs,
                background: match background {
                    Some(b) => b,
                    None => Background::Transparent,
                },
            },
        ),
        _ => Err(usage()),
    }
}

/// Reads a command line; `args[0]` is the program name.
pub fn parse_args(args: &[String]) -> (res: Result<CliArgs, String>)
    ensures
        outcome_view(res) == cli_parse(arg_views(args)),
{
    let ghost av = arg_views(args);
    if args.len() == 2 {
        assert(av[1] == args@[1]@);
        if is_literal(&args[1], "-h") || is_literal(&args[1], "--help") {
            return Ok(CliArgs::Help);
        }
        if is_literal(&args[1], "-V") || is_literal(&args[1], "--version") {
            return Ok(CliArgs::Version);
        }
    }
    let has_server = contains_flag(args, "--server");
    let has_batch = contains_flag(args, "--batch");
    if has_server && has_batch {
        return Err(usage());
    }
    if has_server {
        return parse_server_args(args);
    }
    if has_batch {
        return parse_batch_args(args);
    }
    parse_run_args(args)
}

} // verus!

verus! {

/// The extension an uploaded file is stored under: that of its name when it
/// is `png`, `webp` or `bmp` in any ASCII case, `jpg` otherwise.
pub open spec fn upload_extension(file_name: Option<Seq<char>>) -> Seq<char> {
    let ext = match file_name {
        None => None,
        Some(f) => match path_file_name(f) {
            None => None,
            Some(n) => file_extension(n),
        },
    };
    match ext {
        Some(e) => if ascii_lower_seq(e) == "png"@ {
            "png"@
        } else if ascii_lower_seq(e) == "webp"@ {
            "webp"@
        } else if ascii_lower_seq(e) == "bmp"@ {
            "bmp"@
        } else {
            "jpg"@
        },
        None => "jpg"@,
    }
}

/// Picks the extension under which an uploaded file is stored.
pub fn input_extension(file_name: Option<&str>) -> (res: &'static str)
    ensures
        res@ == upload_extension(str_opt_view(file_name)),
{
    let name = match file_name {
        None => return "jpg",
        Some(f) => f,
    };
    let base = match file_name_of(name) {
        None => return "jpg",
        Some(b) => b,
    };
    let ext = match extension_of(base.as_str()) {
        None => return "jpg",
        Some(e) => e,
    };
    if eq_ignore_ascii_case(ext.as_str(), "png") {
        "png"
    } else if eq_ignore_ascii_case(ext.as_str(), "webp") {
        "webp"
    } else if eq_ignore_ascii_case(ext.as_str(), "bmp") {
        "bmp"
    } else {
        "jpg"
    }
}

/// How a command ended, as far as its exit status is concerned.
#[derive(Clone, Copy, Debug, PartialEq, Eq, Structural)]
pub enum CommandOutcome {
    /// Help, version, a single image or the server finished without error.
    Completed,
    /// A single image, a batch or the server failed as a whole.
    Failed,
    /// A batch ran; `failed` of its images could not be processed.
    BatchFinished { failed: usize },
    /// The command line was refused.
    InvalidArguments,
}

/// The process exit status: `0` for success, `1` for a failed image, batch,
/// file or server, `2` for a refused command line.
pub open spec fn exit_status(outcome: CommandOutcome) -> i32 {
    match outcome {
        CommandOutcome::Completed => 0,
        CommandOutcome::Failed => 1,
        CommandOutcome::BatchFinished { failed } => if failed > 0 {
            1
        } else {
            0
        },
        CommandOutcome::InvalidArguments => 2,
    }
}

/// The exit status for how a command ended (see [`exit_status`]).
pub fn exit_code(outcome: CommandOutcome) -> (res: i32)
    ensures
        res == exit_status(outcome),
{
    match outcome {
        CommandOutcome::Completed => 0,
        CommandOutcome::Failed => 1,
        CommandOutcome::BatchFinished { failed } => if failed > 0 {
            1
        } else {
            0
        },
        CommandOutcome::InvalidArguments => 2,
    }
}

} // verus!

verus! {

/// What every accepted single-image command line satisfies.
pub open spec fn run_facts(args: Seq<Seq<char>>, v: CliArgsView) -> bool {
    match v {
        CliArgsView::Run { input_path, output_path, background, .. } => {
            &&& !starts_with_dash(input_path)
            &&& (output_path matches Some(o) ==> !starts_with_dash(o))
            &&& (!has_flag(args, "--background"@) ==> background == Background::Transparent)
        },
        _ => false,
    }
}

/// What every accepted batch command line satisfies.
pub open spec fn batch_facts(args: Seq<Seq<char>>, v: CliArgsView) -> bool {
    match v {
        CliArgsView::Batch { input_dir, output_dir, jobs, background, .. } => {
            &&& 1 <= jobs <= MAX_BATCH_JOBS
            &&& (!has_flag(args, "-j"@) && !has_flag(args, "--jobs"@)) ==> jobs == DEFAULT_BATCH_JOBS
            &&& !starts_with_dash(input_dir)
            &&& !starts_with_dash(output_dir)
            &&& (!has_flag(args, "--background"@) ==> background == Background::Transparent)
        },
        _ => false,
    }
}

/// What every accepted server command line satisfies.
pub open spec fn server_facts(args: Seq<Seq<char>>, v: CliArgsView) -> bool {
    match v {
        CliArgsView::Server { port } => (!has_flag(args, "-p"@) && !has_flag(args, "--port"@))
            ==> port == DEFAULT_SERVER_PORT,
        _ => false,
    }
}

proof fn lemma_run_scan_facts(
    args: Seq<Seq<char>>,
    i: int,
    crop: bool,
    input: Option<Seq<char>>,
    output: Option<Seq<char>>,
    background: Option<Background>,
)
    requires
        1 <= i,
        input matches Some(p) ==> !starts_with_dash(p),
        output matches Some(o) ==> !starts_with_dash(o),
        !has_flag(args, "--background"@) ==> background is None,
    ensures
        run_scan(args, i, crop, input, output, background) matches Ok(v) ==> run_facts(args, v),
    decreases args.len() - i,
{
    if i < args.len() {
        let a = args[i];
        if a == "--crop"@ {
            lemma_run_scan_facts(args, i + 1, true, input, output, background);
        } else if a == "-o"@ || a == "--output"@ {
            if !(input is None || output is Some || i + 1 >= args.len() || starts_with_dash(
                args[i + 1],
            )) {
                lemma_run_scan_facts(args, i + 2, crop, input, Some(args[i + 1]), background);
            }
        } else if a == "--background"@ {
            assert(has_flag(args, "--background"@));
            if let Some(v) = option_value_of(args, i) {
                if let Some(b) = background_from(v) {
                    if background is None {
                        lemma_run_scan_facts(args, i + 2, crop, input, output, Some(b));
                    }
                }
            }
        } else if starts_with_dash(a) {
        } else if input is None {
            lemma_run_scan_facts(args, i + 1, crop, Some(a), output, background);
        } else if output is None {
            lemma_run_scan_facts(args, i + 1, crop, input, Some(a), background);
        }
    }
}

proof fn lemma_batch_scan_facts(
    args: Seq<Seq<char>>,
    i: int,
    input: Option<Seq<char>>,
    output: Option<Seq<char>>,
    crop: bool,
    recursive: bool,
    jobs: usize,
    background: Option<Background>,
)
    requires
        1 <= i,
        1 <= jobs <= MAX_BATCH_JOBS,
        (!has_flag(args, "-j"@) && !has_flag(args, "--jobs"@)) ==> jobs == DEFAULT_BATCH_JOBS,
        input matches Some(p) ==> !starts_with_dash(p),
        output matches Some(o) ==> !starts_with_dash(o),
        !has_flag(args, "--background"@) ==> background is None,
    ensures
        batch_scan(args, i, input, output, crop, recursive, jobs, background) matches Ok(v)
            ==> batch_facts(args, v),
    decreases args.len() - i,
{
    if i < args.len() {
        let a = args[i];
        if a == "--batch"@ {
            if let Some(v) = option_value_of(args, i) {
                if input is None {
                    lemma_batch_scan_facts(args, i + 2, Some(v), output, crop, recursive, jobs, background);
                }
            }
        } else if a == "-o"@ || a == "--output"@ {
            if let Some(v) = option_value_of(args, i) {
                if output is None {
                    lemma_batch_scan_facts(args, i + 2, input, Some(v), crop, recursive, jobs, background);
                }
            }
        } else if a == "--crop"@ {
            lemma_batch_scan_facts(args, i + 1, input, output, true, recursive, jobs, background);
        } else if a == "-r"@ || a == "--recursive"@ {
            lemma_batch_scan_facts(args, i + 1, input, output, crop, true, jobs, background);
        } else if a == "-j"@ || a == "--jobs"@ {
            assert(has_flag(args, "-j"@) || has_flag(args, "--jobs"@));
            if let Some(v) = option_value_of(args, i) {
                if let Ok(n) = jobs_from(v) {
                    lemma_batch_scan_facts(args, i + 2, input, output, crop, recursive, n, background);
                }
            }
        } else if a == "--background"@ {
            assert(has_flag(args, "--background"@));
            if let Some(v) = option_value_of(args, i) {
                if let Some(b) = background_from(v) {
                    if background is None {
                        lemma_batch_scan_facts(args, i + 2, input, output, crop, recursive, jobs, Some(b));
                    }
                }
            }
        }
    }
}

proof fn lemma_server_scan_facts(args: Seq<Seq<char>>, i: int, port: u16)
    requires
        1 <= i,
        (!has_flag(args, "-p"@) && !has_flag(args, "--port"@)) ==> port == DEFAULT_SERVER_PORT,
    ensures
        server_scan(args, i, port) matches Ok(v) ==> server_facts(args, v),
    decreases args.len() - i,
{
    if i < args.len() {
        let a = args[i];
        if a == "--server"@ {
            lemma_server_scan_facts(args, i + 1, port);
        } else if a == "-p"@ || a == "--port"@ {
            assert(has_flag(args, "-p"@) || has_flag(args, "--port"@));
            if i + 1 < args.len() {
                if let Some(p) = unsigned_value(args[i + 1], u16::MAX as nat) {
                    lemma_server_scan_facts(args, i + 2, p as u16);
                }
            }
        }
    }
}

/// A command line that names both `--server` and `--batch` is refused with
/// the usage text.
pub proof fn law_server_and_batch_exclusive(args: Seq<Seq<char>>)
    requires
        has_flag(args, "--server"@),
        has_flag(args, "--batch"@),
    ensures
        cli_parse(args) == usage_error(),
{
    reveal_strlit("--server");
    reveal_strlit("--batch");
    reveal_strlit("-h");
    reveal_strlit("--help");
    reveal_strlit("-V");
    reveal_strlit("--version");
    if args.len() == 2 {
        let i = choose|i: int| 1 <= i < args.len() && args[i] == "--server"@;
        let j = choose|j: int| 1 <= j < args.len() && args[j] == "--batch"@;
        assert(i == 1 && j == 1);
        assert("--server"@[2] != "--batch"@[2]);
    }
}

/// Help and the version are asked for only by a command line with a single
/// argument after the program name.
pub proof fn law_help_and_version_stand_alone(args: Seq<Seq<char>>)
    ensures
        cli_parse(args) matches Ok(CliArgsView::Help) ==> args.len() == 2,
        cli_parse(args) matches Ok(CliArgsView::Version) ==> args.len() == 2,
{
    lemma_run_scan_facts(args, 1, false, None, None, None);
    lemma_batch_scan_facts(args, 1, None, None, false, false, DEFAULT_BATCH_JOBS, None);
    lemma_server_scan_facts(args, 1, DEFAULT_SERVER_PORT);
}

/// An accepted batch command line asks for 1 to 64 workers, and for the
/// default 3 when neither `-j` nor `--jobs` is given; it names input and
/// output directories that do not look like flags, and keeps a transparent
/// background unless `--background` is given.
pub proof fn law_batch_arguments(args: Seq<Seq<char>>)
    ensures
        (match cli_parse(args) {
            Ok(v) => v is Batch ==> batch_facts(args, v),
            Err(_) => true,
        }),
{
    lemma_run_scan_facts(args, 1, false, None, None, None);
    lemma_batch_scan_facts(args, 1, None, None, false, false, DEFAULT_BATCH_JOBS, None);
    lemma_server_scan_facts(args, 1, DEFAULT_SERVER_PORT);
}

/// An accepted single-image command line names an input path, and an output
/// path if any, that do not look like flags, and keeps a transparent
/// background unless `--background` is given.
pub proof fn law_run_arguments(args: Seq<Seq<char>>)
    ensures
        (match cli_parse(args) {
            Ok(v) => v is Run ==> run_facts(args, v),
            Err(_) => true,
        }),
{
    lemma_run_scan_facts(args, 1, false, None, None, None);
    lemma_batch_scan_facts(args, 1, None, None, false, false, DEFAULT_BATCH_JOBS, None);
    lemma_server_scan_facts(args, 1, DEFAULT_SERVER_PORT);
}

/// An accepted server command line without `-p` or `--port` listens on the
/// default port 8080.
pub proof fn law_server_default_port(args: Seq<Seq<char>>)
    ensures
        (match cli_parse(args) {
            Ok(v) => v is Server ==> server_facts(args, v),
            Err(_) => true,
        }),
{
    lemma_run_scan_facts(args, 1, false, None, None, None);
    lemma_batch_scan_facts(args, 1, None, None, false, false, DEFAULT_BATCH_JOBS, None);
    lemma_server_scan_facts(args, 1, DEFAULT_SERVER_PORT);
}

} // verus!

verus! {

/// Whether no argument from `lo` up to `hi` is `flag`.
pub open spec fn flag_absent(args: Seq<Seq<char>>, flag: Seq<char>, lo: int, hi: int) -> bool {
    forall|a: int| lo <= a < hi && a < args.len() ==> args[a] != flag
}

/// Whether `flag` occurs at most once among the arguments from 1 up to `hi`.
pub open spec fn flag_at_most_once(args: Seq<Seq<char>>, flag: Seq<char>, hi: int) -> bool {
    forall|a: int, b: int|
        1 <= a < b < hi && b < args.len() ==> !(#[trigger] args[a] == flag && #[trigger] args[b]
            == flag)
}

proof fn lemma_flags_differ()
    ensures
        "--background"@ != "--crop"@,
        "--background"@ != "-o"@,
        "--background"@ != "--output"@,
        "--background"@ != "--batch"@,
        "--background"@ != "-r"@,
        "--background"@ != "--recursive"@,
        "--background"@ != "-j"@,
        "--background"@ != "--jobs"@,
        starts_with_dash("--background"@),
{
    reveal_strlit("--background");
    reveal_strlit("--crop");
    reveal_strlit("-o");
    reveal_strlit("--output");
    reveal_strlit("--batch");
    reveal_strlit("-r");
    reveal_strlit("--recursive");
    reveal_strlit("-j");
    reveal_strlit("--jobs");
    assert("--background"@.len() != "--crop"@.len());
    assert("--background"@.len() != "-o"@.len());
    assert("--background"@.len() != "--output"@.len());
    assert("--background"@.len() != "--batch"@.len());
    assert("--background"@.len() != "-r"@.len());
    assert("--background"@.len() != "--recursive"@.len());
    assert("--background"@.len() != "-j"@.len());
    assert("--background"@.len() != "--jobs"@.len());
}

proof fn lemma_step_once(args: Seq<Seq<char>>, i: int, k: int, set: bool)
    requires
        1 <= i,
        k == 1 || k == 2,
        i + k <= args.len(),
        flag_at_most_once(args, "--background"@, i),
        !set ==> flag_absent(args, "--background"@, 1, i),
        set ==> args[i] != "--background"@,
        k == 2 ==> args[i + 1] != "--background"@,
    ensures
        flag_at_most_once(args, "--background"@, i + k),
        !set ==> (args[i] != "--background"@ ==> flag_absent(args, "--background"@, 1, i + k)),
{
    let f = "--background"@;
    assert forall|a: int, b: int| 1 <= a < b < i + k && b < args.len() implies !(#[trigger] args[a]
        == f && #[trigger] args[b] == f) by {
        if b >= i && args[b] == f {
            assert(b == i);
            if set {
            } else {
                assert(args[a] != f);
            }
        }
    }
}

proof fn lemma_run_scan_once(
    args: Seq<Seq<char>>,
    i: int,
    crop: bool,
    input: Option<Seq<char>>,
    output: Option<Seq<char>>,
    background: Option<Background>,
)
    requires
        1 <= i,
        flag_at_most_once(args, "--background"@, i),
        background is None ==> flag_absent(args, "--background"@, 1, i),
    ensures
        run_scan(args, i, crop, input, output, background) is Ok ==> flag_at_most_once(
            args,
            "--background"@,
            args.len() as int,
        ),
    decreases args.len() - i,
{
    lemma_flags_differ();
    let f = "--background"@;
    if i < args.len() {
        let a = args[i];
        let set = background is Some;
        if a == "--crop"@ {
            lemma_step_once(args, i, 1, set);
            lemma_run_scan_once(args, i + 1, true, input, output, background);
        } else if a == "-o"@ || a == "--output"@ {
            if !(input is None || output is Some || i + 1 >= args.len() || starts_with_dash(
                args[i + 1],
            )) {
                lemma_step_once(args, i, 2, set);
                lemma_run_scan_once(args, i + 2, crop, input, Some(args[i + 1]), background);
            }
        } else if a == "--background"@ {
            if let Some(v) = option_value_of(args, i) {
                if let Some(b) = background_from(v) {
                    if background is None {
                        assert forall|x: int, y: int| 1 <= x < y < i + 2 && y < args.len() implies !(
                        #[trigger] args[x] == f && #[trigger] args[y] == f) by {
                            if y == i + 1 {
                            } else if y == i {
                                assert(args[x] != f);
                            }
                        }
                        lemma_run_scan_once(args, i + 2, crop, input, output, Some(b));
                    }
                }
            }
        } else if starts_with_dash(a) {
        } else if input is None {
            lemma_step_once(args, i, 1, set);
            lemma_run_scan_once(args, i + 1, crop, Some(a), output, background);
        } else if output is None {
            lemma_step_once(args, i, 1, set);
            lemma_run_scan_once(args, i + 1, crop, input, Some(a), background);
        }
    } else {
        assert forall|x: int, y: int| 1 <= x < y < args.len() as int && y < args.len() implies !(
        #[trigger] args[x] == f && #[trigger] args[y] == f) by {
            assert(y < i);
        }
    }
}

proof fn lemma_batch_scan_once(
    args: Seq<Seq<char>>,
    i: int,
    input: Option<Seq<char>>,
    output: Option<Seq<char>>,
    crop: bool,
    recursive: bool,
    jobs: usize,
    background: Option<Background>,
)
    requires
        1 <= i,
        flag_at_most_once(args, "--background"@, i),
        background is None ==> flag_absent(args, "--background"@, 1, i),
    ensures
        batch_scan(args, i, input, output, crop, recursive, jobs, background) is Ok
            ==> flag_at_most_once(args, "--background"@, args.len() as int),
    decreases args.len() - i,
{
    lemma_flags_differ();
    let f = "--background"@;
    if i < args.len() {
        let a = args[i];
        let set = background is Some;
        if a == "--batch"@ {
            if let Some(v) = option_value_of(args, i) {
                if input is None {
                    lemma_step_once(args, i, 2, set);
                    lemma_batch_scan_once(args, i + 2, Some(v), output, crop, recursive, jobs, background);
                }
            }
        } else if a == "-o"@ || a == "--output"@ {
            if let Some(v) = option_value_of(args, i) {
                if output is None {
                    lemma_step_once(args, i, 2, set);
                    lemma_batch_scan_once(args, i + 2, input, Some(v), crop, recursive, jobs, background);
                }
            }
        } else if a == "--crop"@ {
            lemma_step_once(args, i, 1, set);
            lemma_batch_scan_once(args, i + 1, input, output, true, recursive, jobs, background);
        } else if a == "-r"@ || a == "--recursive"@ {
            lemma_step_once(args, i, 1, set);
            lemma_batch_scan_once(args, i + 1, input, output, crop, true, jobs, background);
        } else if a == "-j"@ || a == "--jobs"@ {
            if let Some(v) = option_value_of(args, i) {
                if let Ok(n) = jobs_from(v) {
                    lemma_step_once(args, i, 2, set);
                    lemma_batch_scan_once(args, i + 2, input, output, crop, recursive, n, background);
                }
            }
        } else if a == "--background"@ {
            if let Some(v) = option_value_of(args, i) {
                if let Some(b) = background_from(v) {
                    if background is None {
                        assert forall|x: int, y: int| 1 <= x < y < i + 2 && y < args.len() implies !(
                        #[trigger] args[x] == f && #[trigger] args[y] == f) by {
                            if y == i + 1 {
                            } else if y == i {
                                assert(args[x] != f);
                            }
                        }
                        lemma_batch_scan_once(args, i + 2, input, output, crop, recursive, jobs, Some(b));
                    }
                }
            }
        }
    } else {
        assert forall|x: int, y: int| 1 <= x < y < args.len() as int && y < args.len() implies !(
        #[trigger] args[x] == f && #[trigger] args[y] == f) by {
            assert(y < i);
        }
    }
}

/// A background is set once per command: an accepted single-image or batch
/// command line names `--background` at most once.
pub proof fn law_background_at_most_once(args: Seq<Seq<char>>)
    ensures
        (match cli_parse(args) {
            Ok(v) => (v is Run || v is Batch) ==> flag_at_most_once(
                args,
                "--background"@,
                args.len() as int,
            ),
            Err(_) => true,
        }),
{
    lemma_run_scan_once(args, 1, false, None, None, None);
    lemma_batch_scan_once(args, 1, None, None, false, false, DEFAULT_BATCH_JOBS, None);
    lemma_server_scan_facts(args, 1, DEFAULT_SERVER_PORT);
    lemma_run_scan_facts(args, 1, false, None, None, None);
    lemma_batch_scan_facts(args, 1, None, None, false, false, DEFAULT_BATCH_JOBS, None);
}

} // verus!

verus! {

/// The exit status of a whole run, from what its command line asked for and
/// how the work went: `2` for a refused command line; `0` for help or the
/// version; for a single image `0` when it was written, else `1`; for a batch
/// `1` when it could not run (`batch_failed` is `None`) or any image failed,
/// else `0`; for the server `0` when it stopped cleanly, else `1`.
pub open spec fn run_status(
    parsed: Result<CliArgsView, Seq<char>>,
    image_ok: bool,
    batch_failed: Option<usize>,
    server_ok: bool,
) -> i32 {
    match parsed {
        Err(_) => 2,
        Ok(CliArgsView::Help) | Ok(CliArgsView::Version) => 0,
        Ok(CliArgsView::Run { .. }) => if image_ok {
            0
        } else {
            1
        },
        Ok(CliArgsView::Batch { .. }) => match batch_failed {
            None => 1,
            Some(failed) => if failed > 0 {
                1
            } else {
                0
            },
        },
        Ok(CliArgsView::Server { .. }) => if server_ok {
            0
        } else {
            1
        },
    }
}

/// How a run ended, from its parsed command line and how the work went.
pub fn command_outcome(
    parsed: &Result<CliArgs, String>,
    image_ok: bool,
    batch_failed: Option<usize>,
    server_ok: bool,
) -> (res: CommandOutcome)
    ensures
        exit_status(res) == run_status(outcome_view(*parsed), image_ok, batch_failed, server_ok),
{
    match parsed {
        Err(_) => CommandOutcome::InvalidArguments,
        Ok(CliArgs::Help) | Ok(CliArgs::Version) => CommandOutcome::Completed,
        Ok(CliArgs::Run { .. }) => if image_ok {
            CommandOutcome::Completed
        } else {
            CommandOutcome::Failed
        },
        Ok(CliArgs::Batch { .. }) => match batch_failed {
            None => CommandOutcome::Failed,
            Some(failed) => CommandOutcome::BatchFinished { failed },
        },
        Ok(CliArgs::Server { .. }) => if server_ok {
            CommandOutcome::Completed
        } else {
            CommandOutcome::Failed
        },
    }
}

/// The exit status of a whole run (see [`run_status`]).
pub fn run_exit_code(
    parsed: &Result<CliArgs, String>,
    image_ok: bool,
    batch_failed: Option<usize>,
    server_ok: bool,
) -> (res: i32)
    ensures
        res == run_status(outcome_view(*parsed), image_ok, batch_failed, server_ok),
        res == 2 <==> parsed is Err,
{
    exit_code(command_outcome(parsed, image_ok, batch_failed, server_ok))
}

} // verus!

verus! {

/// The value of a hexadecimal digit written out digit range by digit range.
pub open spec fn base16(c: char) -> int {
    if '0' <= c && c <= '9' {
        c as int - 48
    } else if 'a' <= c && c <= 'f' {
        c as int - 87
    } else {
        c as int - 55
    }
}

/// Every `#` followed by six characters from `0`-`9`, `a`-`f` and `A`-`F`
/// names a solid background, each channel the base-16 value of its two
/// digits; and the hexadecimal digits are exactly those characters.
pub proof fn law_hex_colors(s: Seq<char>, c: char)
    ensures
        is_hex_digit(c) <==> ('0' <= c && c <= '9') || ('a' <= c && c <= 'f') || ('A' <= c && c
            <= 'F'),
        s.len() == 7 && s[0] == '#' && (forall|i: int|
            1 <= i < 7 ==> ('0' <= #[trigger] s[i] && s[i] <= '9') || ('a' <= s[i] && s[i] <= 'f')
                || ('A' <= s[i] && s[i] <= 'F')) ==> background_from(s) == Some(
            Background::Solid {
                red: (base16(s[1]) * 16 + base16(s[2])) as u8,
                green: (base16(s[3]) * 16 + base16(s[4])) as u8,
                blue: (base16(s[5]) * 16 + base16(s[6])) as u8,
            },
        ),
{
    reveal_strlit("transparent");
    reveal_strlit("white");
    reveal_strlit("black");
    if s.len() == 7 && s[0] == '#' {
        assert(s != "transparent"@);
        assert(s != "white"@ && s != "black"@) by {
            assert(s.len() != "white"@.len());
        }
    }
}

} // verus!

verus! {

/// Whether `flag` occurs among the arguments from 1 up to `hi`.
pub open spec fn flag_seen(args: Seq<Seq<char>>, flag: Seq<char>, hi: int) -> bool {
    exists|j: int| 1 <= j < hi && j < args.len() && args[j] == flag
}

proof fn lemma_seen_step(args: Seq<Seq<char>>, flag: Seq<char>, i: int, k: int)
    requires
        1 <= i,
        k == 1 || k == 2,
        i + k <= args.len(),
        args[i] != flag,
        k == 2 ==> args[i + 1] != flag,
    ensures
        flag_seen(args, flag, i + k) == flag_seen(args, flag, i),
{
    if flag_seen(args, flag, i + k) {
        let j = choose|j: int| 1 <= j < i + k && j < args.len() && args[j] == flag;
        assert(j < i);
    }
}

proof fn lemma_seen_hit(args: Seq<Seq<char>>, flag: Seq<char>, i: int, k: int)
    requires
        1 <= i,
        i + k <= args.len(),
        k >= 1,
        args[i] == flag,
    ensures
        flag_seen(args, flag, i + k),
{
}

proof fn lemma_seen_all(args: Seq<Seq<char>>, flag: Seq<char>, i: int)
    requires
        i >= args.len(),
    ensures
        flag_seen(args, flag, i) == has_flag(args, flag),
{
    if has_flag(args, flag) {
        let j = choose|j: int| 1 <= j < args.len() && args[j] == flag;
        assert(1 <= j < i && j < args.len() && args[j] == flag);
    }
}

proof fn lemma_value_flags()
    ensures
        starts_with_dash("--crop"@),
        starts_with_dash("-r"@),
        starts_with_dash("--recursive"@),
        "--crop"@ != "-o"@,
        "--crop"@ != "--output"@,
        "--crop"@ != "--background"@,
        "--crop"@ != "--batch"@,
        "--crop"@ != "-r"@,
        "--crop"@ != "--recursive"@,
        "--crop"@ != "-j"@,
        "--crop"@ != "--jobs"@,
        "-r"@ != "--batch"@,
        "-r"@ != "-o"@,
        "-r"@ != "--output"@,
        "-r"@ != "--crop"@,
        "-r"@ != "-j"@,
        "-r"@ != "--jobs"@,
        "-r"@ != "--background"@,
        "--recursive"@ != "--batch"@,
        "--recursive"@ != "-o"@,
        "--recursive"@ != "--output"@,
        "--recursive"@ != "--crop"@,
        "--recursive"@ != "-j"@,
        "--recursive"@ != "--jobs"@,
        "--recursive"@ != "--background"@,
{
    reveal_strlit("--crop");
    reveal_strlit("-r");
    reveal_strlit("--recursive");
    reveal_strlit("-o");
    reveal_strlit("--output");
    reveal_strlit("--background");
    reveal_strlit("--batch");
    reveal_strlit("-j");
    reveal_strlit("--jobs");
    assert("--crop"@.len() != "-o"@.len());
    assert("--crop"@.len() != "--output"@.len());
    assert("--crop"@.len() != "--background"@.len());
    assert("--crop"@[2] != "--batch"@[2]);
    assert("--crop"@.len() != "-r"@.len());
    assert("--crop"@.len() != "--recursive"@.len());
    assert("--crop"@.len() != "-j"@.len());
    assert("--crop"@[2] != "--jobs"@[2]);
    assert("-r"@.len() != "--batch"@.len());
    assert("-r"@[1] != "-o"@[1]);
    assert("-r"@.len() != "--output"@.len());
    assert("-r"@.len() != "--crop"@.len());
    assert("-r"@[1] != "-j"@[1]);
    assert("-r"@.len() != "--jobs"@.len());
    assert("-r"@.len() != "--background"@.len());
    assert("--recursive"@.len() != "--batch"@.len());
    assert("--recursive"@.len() != "-o"@.len());
    assert("--recursive"@.len() != "--output"@.len());
    assert("--recursive"@.len() != "--crop"@.len());
    assert("--recursive"@.len() != "-j"@.len());
    assert("--recursive"@.len() != "--jobs"@.len());
    assert("--recursive"@.len() != "--background"@.len());
}

proof fn lemma_run_scan_crop(
    args: Seq<Seq<char>>,
    i: int,
    crop: bool,
    input: Option<Seq<char>>,
    output: Option<Seq<char>>,
    background: Option<Background>,
)
    requires
        1 <= i <= args.len(),
        crop == flag_seen(args, "--crop"@, i),
    ensures
        run_scan(args, i, crop, input, output, background) matches Ok(v) ==> (v matches CliArgsView::Run {
            crop_to_subject,
            ..
        } && crop_to_subject == has_flag(args, "--crop"@)),
    decreases args.len() - i,
{
    lemma_value_flags();
    let f = "--crop"@;
    if i < args.len() {
        let a = args[i];
        if a == f {
            lemma_seen_hit(args, f, i, 1);
            lemma_run_scan_crop(args, i + 1, true, input, output, background);
        } else if a == "-o"@ || a == "--output"@ {
            if !(input is None || output is Some || i + 1 >= args.len() || starts_with_dash(
                args[i + 1],
            )) {
                lemma_seen_step(args, f, i, 2);
                lemma_run_scan_crop(args, i + 2, crop, input, Some(args[i + 1]), background);
            }
        } else if a == "--background"@ {
            if let Some(v) = option_value_of(args, i) {
                if let Some(b) = background_from(v) {
                    if background is None {
                        lemma_seen_step(args, f, i, 2);
                        lemma_run_scan_crop(args, i + 2, crop, input, output, Some(b));
                    }
                }
            }
        } else if starts_with_dash(a) {
        } else if input is None {
            lemma_seen_step(args, f, i, 1);
            lemma_run_scan_crop(args, i + 1, crop, Some(a), output, background);
        } else if output is None {
            lemma_seen_step(args, f, i, 1);
            lemma_run_scan_crop(args, i + 1, crop, input, Some(a), background);
        }
    } else {
        lemma_seen_all(args, f, i);
    }
}

proof fn lemma_batch_scan_switches(
    args: Seq<Seq<char>>,
    i: int,
    input: Option<Seq<char>>,
    output: Option<Seq<char>>,
    crop: bool,
    recursive: bool,
    jobs: usize,
    background: Option<Background>,
)
    requires
        1 <= i <= args.len(),
        crop == flag_seen(args, "--crop"@, i),
        recursive == (flag_seen(args, "-r"@, i) || flag_seen(args, "--recursive"@, i)),
    ensures
        batch_scan(args, i, input, output, crop, recursive, jobs, background) matches Ok(v) ==> (
        v matches CliArgsView::Batch { crop_to_subject, recursive: r, .. } && crop_to_subject
            == has_flag(args, "--crop"@) && r == (has_flag(args, "-r"@) || has_flag(
            args,
            "--recursive"@,
        ))),
    decreases args.len() - i,
{
    lemma_value_flags();
    let c = "--crop"@;
    let r1 = "-r"@;
    let r2 = "--recursive"@;
    if i < args.len() {
        let a = args[i];
        if a == "--batch"@ || a == "-o"@ || a == "--output"@ || a == "-j"@ || a == "--jobs"@ || a
            == "--background"@ {
            if let Some(v) = option_value_of(args, i) {
                lemma_seen_step(args, c, i, 2);
                lemma_seen_step(args, r1, i, 2);
                lemma_seen_step(args, r2, i, 2);
                if a == "--batch"@ {
                    if input is None {
                        lemma_batch_scan_switches(args, i + 2, Some(v), output, crop, recursive, jobs, background);
                    }
                } else if a == "-o"@ || a == "--output"@ {
                    if output is None {
                        lemma_batch_scan_switches(args, i + 2, input, Some(v), crop, recursive, jobs, background);
                    }
                } else if a == "-j"@ || a == "--jobs"@ {
                    if let Ok(n) = jobs_from(v) {
                        lemma_batch_scan_switches(args, i + 2, input, output, crop, recursive, n, background);
                    }
                } else {
                    if let Some(b) = background_from(v) {
                        if background is None {
                            lemma_batch_scan_switches(args, i + 2, input, output, crop, recursive, jobs, Some(b));
                        }
                    }
                }
            }
        } else if a == c {
            lemma_seen_hit(args, c, i, 1);
            lemma_seen_step(args, r1, i, 1);
            lemma_seen_step(args, r2, i, 1);
            lemma_batch_scan_switches(args, i + 1, input, output, true, recursive, jobs, background);
        } else if a == r1 || a == r2 {
            lemma_seen_step(args, c, i, 1);
            if a == r1 {
                lemma_seen_hit(args, r1, i, 1);
            } else {
                lemma_seen_hit(args, r2, i, 1);
            }
            lemma_batch_scan_switches(args, i + 1, input, output, crop, true, jobs, background);
        }
    } else {
        lemma_seen_all(args, c, i);
        lemma_seen_all(args, r1, i);
        lemma_seen_all(args, r2, i);
    }
}

/// An accepted single-image command line crops exactly when `--crop` is
/// among its arguments, wherever it stands.
pub proof fn law_run_crop_flag(args: Seq<Seq<char>>)
    ensures
        (match cli_parse(args) {
            Ok(CliArgsView::Run { crop_to_subject, .. }) => crop_to_subject == has_flag(
                args,
                "--crop"@,
            ),
            _ => true,
        }),
{
    if args.len() >= 1 {
        lemma_run_scan_crop(args, 1, false, None, None, None);
    }
    lemma_batch_scan_facts(args, 1, None, None, false, false, DEFAULT_BATCH_JOBS, None);
    lemma_server_scan_facts(args, 1, DEFAULT_SERVER_PORT);
}

/// An accepted batch command line crops exactly when `--crop` is among its
/// arguments, and recurses exactly when `-r` or `--recursive` is.
pub proof fn law_batch_switches(args: Seq<Seq<char>>)
    ensures
        (match cli_parse(args) {
            Ok(CliArgsView::Batch { crop_to_subject, recursive, .. }) => crop_to_subject
                == has_flag(args, "--crop"@) && recursive == (has_flag(args, "-r"@) || has_flag(
                args,
                "--recursive"@,
            )),
            _ => true,
        }),
{
    if args.len() >= 1 {
        lemma_batch_scan_switches(args, 1, None, None, false, false, DEFAULT_BATCH_JOBS, None);
    }
    lemma_run_scan_facts(args, 1, false, None, None, None);
    lemma_server_scan_facts(args, 1, DEFAULT_SERVER_PORT);
}

} // verus!
