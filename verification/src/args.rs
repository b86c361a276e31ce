//! The argument interpreter: a two-phase, left-to-right scan over the raw
//! argument vector that yields a list of file targets and a wait flag.
//!
//! The scan is modelled by the spec function [`scan`], a two-state machine
//! (`before the filename list` / `inside the filename list`, the switch being
//! sticky), and the executable [`parse`] is proved to return exactly what
//! [`parse_spec`] — the scan followed by the solution-file filter — says.

use crate::num::parse_i32;
use crate::num::parse_i32_spec;
use vstd::prelude::*;

verus! {

/// Mathematical model of one file target: where the editor should place the
/// cursor when opening `filename`.
pub struct TargetModel {
    /// 1-based line to open at, or absent for the client's default.
    pub line: Option<u32>,
    /// 1-based column to open at, or absent for the client's default.
    pub column: Option<u32>,
    /// The file to open, as given on the command line.
    pub filename: Seq<char>,
}

/// One file to open, with an optional cursor position.
#[derive(Debug)]
pub struct FileTarget {
    /// 1-based line to open at, or absent for the client's default.
    pub line: Option<u32>,
    /// 1-based column to open at, or absent for the client's default.
    pub column: Option<u32>,
    /// The file to open, as given on the command line.
    pub filename: String,
}

impl View for FileTarget {
    type V = TargetModel;

    open spec fn view(&self) -> TargetModel {
        TargetModel { line: self.line, column: self.column, filename: self.filename@ }
    }
}

/// Mathematical model of the interpreter's output.
pub struct ArgsModel {
    /// The launched client must block until editing is finished.
    pub wait: bool,
    /// The targets, in order of appearance on the command line.
    pub targets: Seq<TargetModel>,
}

/// The interpreter's output: the wait flag and the ordered file targets.
#[derive(Debug)]
pub struct Args {
    /// The launched client must block until editing is finished.
    pub wait: bool,
    /// The targets, in order of appearance on the command line.
    pub file_targets: Vec<FileTarget>,
}

/// The sequence of target models behind a vector of targets.
pub open spec fn targets_model(v: Seq<FileTarget>) -> Seq<TargetModel> {
    v.map_values(|t: FileTarget| t@)
}

impl View for Args {
    type V = ArgsModel;

    open spec fn view(&self) -> ArgsModel {
        ArgsModel { wait: self.wait, targets: targets_model(self.file_targets@) }
    }
}

/// Why parsing failed.  Every variant carries the offending token.
#[derive(Debug)]
pub enum ParseError {
    /// A leading command token this adapter refuses to emulate.
    UnsupportedCommand(String),
    /// A position option stood last, with no value token after it.
    MissingValue(String),
    /// The value of a position option was not an integer that fits the
    /// target's unsigned representation.
    InvalidInteger(String),
}

/// Model of [`ParseError`].
pub enum ParseErrorModel {
    /// A leading command token this adapter refuses to emulate.
    UnsupportedCommand(Seq<char>),
    /// A position option stood last, with no value token after it.
    MissingValue(Seq<char>),
    /// The value of a position option was not an integer that fits the
    /// target's unsigned representation.
    InvalidInteger(Seq<char>),
}

impl View for ParseError {
    type V = ParseErrorModel;

    open spec fn view(&self) -> ParseErrorModel {
        match self {
            ParseError::UnsupportedCommand(t) => ParseErrorModel::UnsupportedCommand(t@),
            ParseError::MissingValue(t) => ParseErrorModel::MissingValue(t@),
            ParseError::InvalidInteger(t) => ParseErrorModel::InvalidInteger(t@),
        }
    }
}

/// What each parse diagnostic says.
pub open spec fn parse_error_message(e: ParseErrorModel) -> Seq<char> {
    match e {
        ParseErrorModel::UnsupportedCommand(t) => "Unsupported command: "@ + t,
        ParseErrorModel::MissingValue(t) => "No integer argument passed to "@ + t,
        ParseErrorModel::InvalidInteger(t) => "Invalid integer argument passed to "@ + t,
    }
}

impl ParseError {
    /// A one-line diagnostic for this error.
    pub fn message(&self) -> (r: String)
        ensures
            r@ == parse_error_message(self@),
    {
        match self {
            ParseError::UnsupportedCommand(t) => {
                let mut s = String::from_str("Unsupported command: ");
                s.append(t.as_str());
                s
            },
            ParseError::MissingValue(t) => {
                let mut s = String::from_str("No integer argument passed to ");
                s.append(t.as_str());
                s
            },
            ParseError::InvalidInteger(t) => {
                let mut s = String::from_str("Invalid integer argument passed to ");
                s.append(t.as_str());
                s
            },
        }
    }
}

/// A leading flag that is recognized and discarded.
pub open spec fn is_noop_token(t: Seq<char>) -> bool {
    t == "nosplash"@ || t == "dontReopenProjects"@ || t == "disableNonBundledPlugins"@
}

/// The flag that asks the client to block until editing is done.
pub open spec fn is_wait_token(t: Seq<char>) -> bool {
    t == "--wait"@
}

/// A leading command this adapter rejects outright.
pub open spec fn is_unsupported_token(t: Seq<char>) -> bool {
    t == "diff"@ || t == "merge"@ || t == "attach-to-process"@
}

/// An option that carries the line for the next file target.
pub open spec fn is_line_option(t: Seq<char>) -> bool {
    t == "--line"@ || t == "-l"@
}

/// An option that carries the column for the next file target.
pub open spec fn is_column_option(t: Seq<char>) -> bool {
    t == "--column"@ || t == "-c"@
}

/// The line a value token denotes: a signed integer that fits the unsigned
/// 32-bit representation.
pub open spec fn line_value(s: Seq<char>) -> Option<u32> {
    match parse_i32_spec(s) {
        Some(v) => if v >= 0 {
            Some(v as u32)
        } else {
            None
        },
        None => None,
    }
}

/// The column a value token denotes: the same as [`line_value`], shifted
/// from the 0-based convention of the input to the 1-based convention of
/// the client.
pub open spec fn column_value(s: Seq<char>) -> Option<u32> {
    match parse_i32_spec(s) {
        Some(v) => if v >= 0 {
            Some((v + 1) as u32)
        } else {
            None
        },
        None => None,
    }
}

/// The filename names a solution file: it ends in `.sln`, compared without
/// regard to ASCII case.
pub open spec fn is_sln_name(s: Seq<char>) -> bool {
    s.len() >= 4 && s[s.len() - 4] == '.' && (s[s.len() - 3] == 's' || s[s.len() - 3] == 'S') && (
    s[s.len() - 2] == 'l' || s[s.len() - 2] == 'L') && (s[s.len() - 1] == 'n' || s[s.len() - 1]
        == 'N')
}

/// The state threaded through the scan.
pub struct ScanState {
    /// The wait flag seen so far.
    pub wait: bool,
    /// Whether the scan has entered the filename list (sticky).
    pub in_files: bool,
    /// Pending line for the next file target.
    pub line: Option<u32>,
    /// Pending column for the next file target.
    pub column: Option<u32>,
    /// Targets consumed so far, in order.
    pub targets: Seq<TargetModel>,
}

/// The state the scan starts from.
pub open spec fn init_state() -> ScanState {
    ScanState { wait: false, in_files: false, line: None, column: None, targets: Seq::empty() }
}

/// One left-to-right pass over the tokens.  Before the filename list, the
/// no-op flags and `--wait` are discarded and the unsupported commands
/// rejected; any other token enters the filename list for good.  There, a
/// position option consumes the next token as its value, and every other
/// token becomes a file target carrying the pending position.
pub open spec fn scan(toks: Seq<Seq<char>>, st: ScanState) -> Result<ScanState, ParseErrorModel>
    decreases toks.len(),
{
    if toks.len() == 0 {
        Ok(st)
    } else {
        let t = toks[0];
        let rest = toks.drop_first();
        if !st.in_files && is_noop_token(t) {
            scan(rest, st)
        } else if !st.in_files && is_wait_token(t) {
            scan(
                rest,
                ScanState {
                    wait: true,
                    in_files: st.in_files,
                    line: st.line,
                    column: st.column,
                    targets: st.targets,
                },
            )
        } else if !st.in_files && is_unsupported_token(t) {
            Err(ParseErrorModel::UnsupportedCommand(t))
        } else if is_line_option(t) {
            if rest.len() == 0 {
                Err(ParseErrorModel::MissingValue(t))
            } else {
                match line_value(rest[0]) {
                    Some(v) => scan(
                        rest.drop_first(),
                        ScanState {
                            wait: st.wait,
                            in_files: true,
                            line: Some(v),
                            column: st.column,
                            targets: st.targets,
                        },
                    ),
                    None => Err(ParseErrorModel::InvalidInteger(t)),
                }
            }
        } else if is_column_option(t) {
            if rest.len() == 0 {
                Err(ParseErrorModel::MissingValue(t))
            } else {
                match column_value(rest[0]) {
                    Some(v) => scan(
                        rest.drop_first(),
                        ScanState {
                            wait: st.wait,
                            in_files: true,
                            line: st.line,
                            column: Some(v),
                            targets: st.targets,
                        },
                    ),
                    None => Err(ParseErrorModel::InvalidInteger(t)),
                }
            }
        } else {
            scan(
                rest,
                ScanState {
                    wait: st.wait,
                    in_files: true,
                    line: None,
                    column: None,
                    targets: st.targets.push(
                        TargetModel { line: st.line, column: st.column, filename: t },
                    ),
                },
            )
        }
    }
}

/// The solution-file filter: with anything other than exactly one target,
/// every `.sln` target is dropped; a sole target is kept whatever it is.
pub open spec fn retained(ts: Seq<TargetModel>) -> Seq<TargetModel> {
    if ts.len() == 1 {
        ts
    } else {
        ts.filter(|t: TargetModel| !is_sln_name(t.filename))
    }
}

/// What parsing an argument vector means: the scan from the initial state,
/// followed by the solution-file filter.
pub open spec fn parse_spec(toks: Seq<Seq<char>>) -> Result<ArgsModel, ParseErrorModel> {
    match scan(toks, init_state()) {
        Ok(st) => Ok(ArgsModel { wait: st.wait, targets: retained(st.targets) }),
        Err(e) => Err(e),
    }
}

/// The token sequences behind a vector of argument strings.
pub open spec fn tokens_model(v: Seq<String>) -> Seq<Seq<char>> {
    v.map_values(|s: String| s@)
}

/// Character-by-character string equality.
fn str_eq(a: &str, b: &str) -> (r: bool)
    ensures
        r == (a@ == b@),
{
    let n: usize = a.unicode_len();
    if n != b.unicode_len() {
        return false;
    }
    let mut i: usize = 0;
    while i < n
        invariant
            0 <= i <= n,
            n == a@.len(),
            n == b@.len(),
            forall|j: int| 0 <= j < i ==> a@[j] == b@[j],
        decreases n - i,
    {
        if a.get_char(i) != b.get_char(i) {
            return false;
        }
        i = i + 1;
    }
    proof {
        assert(a@ =~= b@);
    }
    true
}

/// Whether `filename` names a solution file, per [`is_sln_name`].
pub fn is_sln(filename: &str) -> (r: bool)
    ensures
        r == is_sln_name(filename@),
{
    let n: usize = filename.unicode_len();
    if n < 4 {
        return false;
    }
    let c0 = filename.get_char(n - 4);
    let c1 = filename.get_char(n - 3);
    let c2 = filename.get_char(n - 2);
    let c3 = filename.get_char(n - 1);
    c0 == '.' && (c1 == 's' || c1 == 'S') && (c2 == 'l' || c2 == 'L') && (c3 == 'n' || c3 == 'N')
}

/// Interpret the raw argument vector (without the program name), exactly as
/// [`parse_spec`] describes.
pub fn parse(raw_args: &Vec<String>) -> (r: Result<Args, ParseError>)
    ensures
        match r {
            Ok(a) => parse_spec(tokens_model(raw_args@)) == Ok::<ArgsModel, ParseErrorModel>(a@),
            Err(e) => parse_spec(tokens_model(raw_args@)) == Err::<ArgsModel, ParseErrorModel>(
                e@,
            ),
        },
{
    let ghost toks = tokens_model(raw_args@);
    let n: usize = raw_args.len();
    let mut wait = false;
    let mut in_files = false;
    let mut line: Option<u32> = None;
    let mut column: Option<u32> = None;
    let mut file_targets: Vec<FileTarget> = Vec::new();
    let mut i: usize = 0;
    proof {
        assert(toks.subrange(0, n as int) =~= toks);
        assert(targets_model(file_targets@) =~= Seq::<TargetModel>::empty());
        assert(ScanState {
            wait,
            in_files,
            line,
            column,
            targets: targets_model(file_targets@),
        } == init_state());
    }
    while i < n
        invariant
            0 <= i <= n,
            n == raw_args@.len(),
            toks == tokens_model(raw_args@),
            scan(
                toks.subrange(i as int, n as int),
                ScanState {
                    wait,
                    in_files,
                    line,
                    column,
                    targets: targets_model(file_targets@),
                },
            ) == scan(toks, init_state()),
        decreases n - i,
    {
        let ghost st = ScanState {
            wait,
            in_files,
            line,
            column,
            targets: targets_model(file_targets@),
        };
        let ghost sub = toks.subrange(i as int, n as int);
        proof {
            assert(sub[0] == toks[i as int]);
            assert(sub.drop_first() =~= toks.subrange(i + 1, n as int));
        }
        let arg: &String = &raw_args[i];
        if !in_files {
            if str_eq(arg.as_str(), "nosplash") || str_eq(arg.as_str(), "dontReopenProjects")
                || str_eq(arg.as_str(), "disableNonBundledPlugins") {
                i = i + 1;
                continue ;
            }
            if str_eq(arg.as_str(), "--wait") {
                wait = true;
                i = i + 1;
                continue ;
            }
            if str_eq(arg.as_str(), "diff") || str_eq(arg.as_str(), "merge") || str_eq(
                arg.as_str(),
                "attach-to-process",
            ) {
                return Err(ParseError::UnsupportedCommand(arg.clone()));
            }
            in_files = true;
        }
        let is_line_opt = str_eq(arg.as_str(), "--line") || str_eq(arg.as_str(), "-l");
        let is_column_opt = str_eq(arg.as_str(), "--column") || str_eq(arg.as_str(), "-c");
        if is_line_opt || is_column_opt {
            proof {
                assert(st.in_files || (!is_noop_token(sub[0]) && !is_wait_token(sub[0])
                    && !is_unsupported_token(sub[0])));
            }
            if i + 1 == n {
                return Err(ParseError::MissingValue(arg.clone()));
            }
            let value: &String = &raw_args[i + 1];
            proof {
                assert(sub.drop_first()[0] == toks[i + 1]);
                assert(sub.drop_first().drop_first() =~= toks.subrange(i + 2, n as int));
            }
            let parsed = parse_i32(value.as_str());
            let unsigned: u32 = match parsed {
                Some(v) => {
                    if v < 0 {
                        return Err(ParseError::InvalidInteger(arg.clone()));
                    }
                    v as u32
                },
                None => {
                    return Err(ParseError::InvalidInteger(arg.clone()));
                },
            };
            if is_line_opt {
                line = Some(unsigned);
            } else {
                column = Some(unsigned + 1);
            }
            i = i + 2;
        } else {
            proof {
                assert(st.in_files || (!is_noop_token(sub[0]) && !is_wait_token(sub[0])
                    && !is_unsupported_token(sub[0])));
                assert(!is_line_option(sub[0]) && !is_column_option(sub[0]));
            }
            let target = FileTarget { line, column, filename: arg.clone() };
            proof {
                assert(targets_model(file_targets@.push(target)) =~= targets_model(
                    file_targets@,
                ).push(target@));
            }
            file_targets.push(target);
            line = None;
            column = None;
            in_files = true;
            i = i + 1;
        }
    }
    proof {
        assert(toks.subrange(i as int, n as int) =~= Seq::<Seq<char>>::empty());
    }
    let kept = if file_targets.len() != 1 {
        let m: usize = file_targets.len();
        let mut kept: Vec<FileTarget> = Vec::new();
        let mut j: usize = 0;
        proof {
            reveal(Seq::filter);
        }
        while j < m
            invariant
                0 <= j <= m,
                m == file_targets@.len(),
                targets_model(kept@) == targets_model(file_targets@.subrange(0, j as int)).filter(
                    |t: TargetModel| !is_sln_name(t.filename),
                ),
            decreases m - j,
        {
            let ghost pred = |t: TargetModel| !is_sln_name(t.filename);
            proof {
                reveal(Seq::filter);
                assert(targets_model(file_targets@.subrange(0, j + 1)).drop_last()
                    =~= targets_model(file_targets@.subrange(0, j as int)));
                assert(targets_model(file_targets@.subrange(0, j + 1)).last()
                    == file_targets@[j as int]@);
            }
            let t: &FileTarget = &file_targets[j];
            if !is_sln(t.filename.as_str()) {
                let copy = FileTarget {
                    line: t.line,
                    column: t.column,
                    filename: t.filename.clone(),
                };
                proof {
                    assert(copy@ == file_targets@[j as int]@);
                    assert(targets_model(kept@.push(copy)) =~= targets_model(kept@).push(copy@));
                }
                kept.push(copy);
            }
            j = j + 1;
        }
        proof {
            assert(file_targets@.subrange(0, m as int) =~= file_targets@);
        }
        kept
    } else {
        file_targets
    };
    Ok(Args { wait, file_targets: kept })
}

} // verus!
