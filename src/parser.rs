//! The shell's command language: tokenizing a line and parsing the tokens
//! into a command.

use vstd::prelude::*;
use crate::search::SearchEngine;
use crate::text::{chars_of, lower_of, lowercase, string_of, trim_chars, trim_spec, views};

verus! {

#[derive(Debug)]
pub enum Command {
    // Meta commands
    ListCommands,
    ClearScreen,
    Exit,
    Unknown { command: String },
    // State commands
    Select { filename: String, directory: String },
    ViewState,
    ClearState,
    RunState,
    MetaState,
    // Directory commands
    DodgeDirectory,
    WatchDirectory { directory: String },
    ListDirectory,
    ChangeDrive { drive: String },
    MakeDirectory { directory: String },
    RemoveDirectory { directory: String },
    RenameDirectory { old_directory: String, new_directory: String },
    // File commands
    MakeFile { filename: String },
    RemoveFile { filename: String },
    RenameFile { old_filename: String, new_filename: String },
    // Search commands
    FindExact { filename: String },
    Search { engine: SearchEngine, filename: String },
    // Favourite commands
    FavView,
    FavSet,
    FavRm { index: usize },
    RunFav { index: usize },
}

pub enum CommandView {
    ListCommands,
    ClearScreen,
    Exit,
    Unknown { command: Seq<char> },
    Select { filename: Seq<char>, directory: Seq<char> },
    ViewState,
    ClearState,
    RunState,
    MetaState,
    DodgeDirectory,
    WatchDirectory { directory: Seq<char> },
    ListDirectory,
    ChangeDrive { drive: Seq<char> },
    MakeDirectory { directory: Seq<char> },
    RemoveDirectory { directory: Seq<char> },
    RenameDirectory { old_directory: Seq<char>, new_directory: Seq<char> },
    MakeFile { filename: Seq<char> },
    RemoveFile { filename: Seq<char> },
    RenameFile { old_filename: Seq<char>, new_filename: Seq<char> },
    FindExact { filename: Seq<char> },
    Search { engine: SearchEngine, filename: Seq<char> },
    FavView,
    FavSet,
    FavRm { index: nat },
    RunFav { index: nat },
}

impl View for Command {
    type V = CommandView;

    open spec fn view(&self) -> CommandView {
        match *self {
            Command::ListCommands => CommandView::ListCommands,
            Command::ClearScreen => CommandView::ClearScreen,
            Command::Exit => CommandView::Exit,
            Command::Unknown { command } => CommandView::Unknown { command: command@ },
            Command::Select { filename, directory } => CommandView::Select {
                filename: filename@,
                directory: directory@,
            },
            Command::ViewState => CommandView::ViewState,
            Command::ClearState => CommandView::ClearState,
            Command::RunState => CommandView::RunState,
            Command::MetaState => CommandView::MetaState,
            Command::DodgeDirectory => CommandView::DodgeDirectory,
            Command::WatchDirectory { directory } => CommandView::WatchDirectory { directory: directory@ },
            Command::ListDirectory => CommandView::ListDirectory,
            Command::ChangeDrive { drive } => CommandView::ChangeDrive { drive: drive@ },
            Command::MakeDirectory { directory } => CommandView::MakeDirectory { directory: directory@ },
            Command::RemoveDirectory { directory } => CommandView::RemoveDirectory { directory: directory@ },
            Command::RenameDirectory { old_directory, new_directory } => CommandView::RenameDirectory {
                old_directory: old_directory@,
                new_directory: new_directory@,
            },
            Command::MakeFile { filename } => CommandView::MakeFile { filename: filename@ },
            Command::RemoveFile { filename } => CommandView::RemoveFile { filename: filename@ },
            Command::RenameFile { old_filename, new_filename } => CommandView::RenameFile {
                old_filename: old_filename@,
                new_filename: new_filename@,
            },
            Command::FindExact { filename } => CommandView::FindExact { filename: filename@ },
            Command::Search { engine, filename } => CommandView::Search { engine, filename: filename@ },
            Command::FavView => CommandView::FavView,
            Command::FavSet => CommandView::FavSet,
            Command::FavRm { index } => CommandView::FavRm { index: index as nat },
            Command::RunFav { index } => CommandView::RunFav { index: index as nat },
        }
    }
}

/// A parse outcome as a value: the command, or the error message.
pub open spec fn outcome(r: Result<Command, String>) -> Result<CommandView, Seq<char>> {
    match r {
        Ok(c) => Ok(c@),
        Err(e) => Err(e@),
    }
}

pub open spec fn tokens_outcome(r: Result<Vec<String>, String>) -> Result<Seq<Seq<char>>, Seq<char>> {
    match r {
        Ok(t) => Ok(views(t@)),
        Err(e) => Err(e@),
    }
}

/// The Unicode upper-case form of a character sequence.
pub uninterp spec fn upper_of(s: Seq<char>) -> Seq<char>;

/// Relies on `str::to_uppercase`: Unicode upper-casing, which depends on the
/// characters alone.
#[verifier::external_body]
fn uppercase(s: &str) -> (r: String)
    ensures
        r@ == upper_of(s@),
{
    s.to_uppercase()
}

/// Whether `s` holds exactly the characters of `lit`.
fn is_text(s: &str, lit: &str) -> (r: bool)
    ensures
        r == (s@ == lit@),
{
    let a = String::from_str(s);
    let b = String::from_str(lit);
    a == b
}

/// Whether the upper-case form of `s` is `lit`.
fn upper_is(s: &str, lit: &str) -> (r: bool)
    ensures
        r == (upper_of(s@) == lit@),
{
    let u = uppercase(s);
    is_text(u.as_str(), lit)
}

// --------------------------------------------------------------- tokenizer

/// Tokenizer state: the finished tokens, the token being read, and whether a
/// double quote is open.
pub struct TokState {
    pub tokens: Seq<Seq<char>>,
    pub current: Seq<char>,
    pub quoted: bool,
}

/// Double quotes toggle quoting and are dropped; unquoted spaces and tabs
/// end the current token (trimmed); every other character is kept.
pub open spec fn tok_step(st: TokState, ch: char) -> TokState {
    if ch == '"' {
        TokState { quoted: !st.quoted, ..st }
    } else if ch == ' ' || ch == '\t' {
        if st.quoted {
            TokState { current: st.current.push(ch), ..st }
        } else if st.current.len() > 0 {
            TokState { tokens: st.tokens.push(trim_spec(st.current)), current: Seq::empty(), ..st }
        } else {
            st
        }
    } else {
        TokState { current: st.current.push(ch), ..st }
    }
}

pub open spec fn tok_run(s: Seq<char>) -> TokState
    decreases s.len(),
{
    if s.len() == 0 {
        TokState { tokens: Seq::empty(), current: Seq::empty(), quoted: false }
    } else {
        tok_step(tok_run(s.drop_last()), s.last())
    }
}

/// The tokens of a line, or the error for an unclosed quote.
pub open spec fn tokenize_spec(s: Seq<char>) -> Result<Seq<Seq<char>>, Seq<char>> {
    let st = tok_run(s);
    if st.quoted {
        Err("Unclosed quotes in command."@)
    } else if st.current.len() > 0 {
        Ok(st.tokens.push(trim_spec(st.current)))
    } else {
        Ok(st.tokens)
    }
}

/// Splits a command line into tokens.
pub fn tokenize(input: &str) -> (r: Result<Vec<String>, String>)
    ensures
        tokens_outcome(r) == tokenize_spec(input@),
{
    let chars = chars_of(input);
    let mut tokens: Vec<String> = Vec::new();
    let mut current: Vec<char> = Vec::new();
    let mut quoted = false;
    let mut i: usize = 0;
    proof {
        assert(views(tokens@) =~= Seq::<Seq<char>>::empty());
        assert(chars@.subrange(0, 0) =~= Seq::<char>::empty());
    }
    while i < chars.len()
        invariant
            i <= chars@.len(),
            chars@ == input@,
            tok_run(chars@.subrange(0, i as int)) == (TokState {
                tokens: views(tokens@),
                current: current@,
                quoted,
            }),
        decreases chars@.len() - i,
    {
        let ch = chars[i];
        proof {
            assert(chars@.subrange(0, i + 1).drop_last() =~= chars@.subrange(0, i as int));
        }
        let ghost tv = views(tokens@);
        if ch == '"' {
            quoted = !quoted;
        } else if ch == ' ' || ch == '\t' {
            if quoted {
                current.push(ch);
            } else if current.len() > 0 {
                let tok = trim_chars(&current);
                tokens.push(string_of(&tok));
                assert(views(tokens@) =~= tv.push(trim_spec(current@)));
                current = Vec::new();
                assert(current@ =~= Seq::<char>::empty());
            }
        } else {
            current.push(ch);
        }
        i += 1;
    }
    assert(chars@.subrange(0, i as int) =~= input@);
    if quoted {
        return Err(String::from_str("Unclosed quotes in command."));
    }
    if current.len() > 0 {
        let ghost tv = views(tokens@);
        let tok = trim_chars(&current);
        tokens.push(string_of(&tok));
        assert(views(tokens@) =~= tv.push(trim_spec(current@)));
    }
    Ok(tokens)
}

// ------------------------------------------------------------ token values

/// `\ ` (backslash, space) read as a space, left to right.
pub open spec fn unescape_spaces(s: Seq<char>) -> Seq<char>
    decreases s.len(),
{
    if s.len() == 0 {
        s
    } else if s.len() >= 2 && s[0] == '\\' && s[1] == ' ' {
        seq![' '] + unescape_spaces(s.skip(2))
    } else {
        seq![s[0]] + unescape_spaces(s.skip(1))
    }
}

/// A file-name argument: the inside of a token wrapped in matching double or
/// single quotes, else the token with escaped spaces read as spaces.
pub open spec fn filename_spec(t: Seq<char>) -> Seq<char> {
    if t.len() >= 2 && ((t[0] == '"' && t.last() == '"') || (t[0] == '\'' && t.last() == '\'')) {
        t.subrange(1, t.len() - 1)
    } else {
        unescape_spaces(t)
    }
}

pub fn parse_filename(token: &str) -> (r: String)
    ensures
        r@ == filename_spec(token@),
{
    let t = chars_of(token);
    let n = t.len();
    if n >= 2 && ((t[0] == '"' && t[n - 1] == '"') || (t[0] == '\'' && t[n - 1] == '\'')) {
        let mut inner: Vec<char> = Vec::new();
        let mut i: usize = 1;
        while i < n - 1
            invariant
                1 <= i <= n - 1,
                n == t@.len(),
                inner@ == t@.subrange(1, i as int),
            decreases n - 1 - i,
        {
            inner.push(t[i]);
            i += 1;
        }
        return string_of(&inner);
    }
    let mut out: Vec<char> = Vec::new();
    let mut i: usize = 0;
    assert(t@.skip(0) =~= t@);
    while i < n
        invariant
            i <= n,
            n == t@.len(),
            out@ + unescape_spaces(t@.skip(i as int)) == unescape_spaces(t@),
        decreases n - i,
    {
        let ghost rest = t@.skip(i as int);
        assert(rest[0] == t@[i as int]);
        if i + 1 < n && t[i] == '\\' && t[i + 1] == ' ' {
            assert(rest[1] == t@[i + 1]);
            assert(rest.skip(2) =~= t@.skip(i + 2));
            out.push(' ');
            assert(out@ + unescape_spaces(t@.skip(i + 2)) =~= unescape_spaces(t@));
            i += 2;
        } else {
            assert(rest.skip(1) =~= t@.skip(i + 1));
            out.push(t[i]);
            assert(out@ + unescape_spaces(t@.skip(i + 1)) =~= unescape_spaces(t@));
            i += 1;
        }
    }
    assert(t@.skip(i as int) =~= Seq::<char>::empty());
    assert(out@ =~= unescape_spaces(t@));
    string_of(&out)
}

/// The tokens joined with single spaces.
pub open spec fn join_spaces(t: Seq<Seq<char>>) -> Seq<char>
    decreases t.len(),
{
    if t.len() == 0 {
        Seq::empty()
    } else if t.len() == 1 {
        t[0]
    } else {
        join_spaces(t.drop_last()) + seq![' '] + t.last()
    }
}

/// Tokens `from..` joined with single spaces.
fn join_from(tokens: &Vec<String>, from: usize) -> (r: String)
    requires
        from < tokens@.len(),
    ensures
        r@ == join_spaces(views(tokens@).subrange(from as int, tokens@.len() as int)),
{
    let ghost tv = views(tokens@);
    let n = tokens.len();
    let mut out = chars_of(tokens[from].as_str());
    let mut k: usize = from + 1;
    assert(tv.subrange(from as int, from + 1).drop_last().len() == 0);
    while k < tokens.len()
        invariant
            from < k <= tokens@.len(),
            tv == views(tokens@),
            out@ == join_spaces(tv.subrange(from as int, k as int)),
        decreases tokens@.len() - k,
    {
        let next = chars_of(tokens[k].as_str());
        let ghost before = out@;
        out.push(' ');
        let mut j: usize = 0;
        while j < next.len()
            invariant
                j <= next@.len(),
                out@ == before + seq![' '] + next@.subrange(0, j as int),
            decreases next@.len() - j,
        {
            out.push(next[j]);
            assert(next@.subrange(0, j + 1) =~= next@.subrange(0, j as int).push(next@[j as int]));
            j += 1;
        }
        assert(next@.subrange(0, j as int) =~= next@);
        assert(tv.subrange(from as int, k + 1).drop_last() =~= tv.subrange(from as int, k as int));
        assert(out@ =~= join_spaces(tv.subrange(from as int, k + 1)));
        k += 1;
    }
    string_of(&out)
}

pub open spec fn is_digit(c: char) -> bool {
    c == '0' || c == '1' || c == '2' || c == '3' || c == '4' || c == '5' || c == '6' || c == '7'
        || c == '8' || c == '9'
}

pub open spec fn digit_value(c: char) -> nat {
    if c == '1' { 1 } else if c == '2' { 2 } else if c == '3' { 3 } else if c == '4' { 4 }
    else if c == '5' { 5 } else if c == '6' { 6 } else if c == '7' { 7 } else if c == '8' { 8 }
    else if c == '9' { 9 } else { 0 }
}

/// The number written by a sequence of decimal digits.
pub open spec fn digits_value(d: Seq<char>) -> nat
    decreases d.len(),
{
    if d.len() == 0 {
        0
    } else {
        digits_value(d.drop_last()) * 10 + digit_value(d.last())
    }
}

/// What `usize::from_str` accepts: an optional `+`, then at least one
/// decimal digit, for a value that fits.
pub open spec fn usize_spec(s: Seq<char>) -> Option<nat> {
    let d = unsigned_digits(s);
    if d.len() > 0 && all_digits(d) && digits_value(d) <= usize::MAX {
        Some(digits_value(d))
    } else {
        None
    }
}

/// The text after an optional leading `+`.
pub open spec fn unsigned_digits(s: Seq<char>) -> Seq<char> {
    if s.len() > 0 && s[0] == '+' { s.skip(1) } else { s }
}

pub open spec fn all_digits(d: Seq<char>) -> bool {
    forall|i: int| 0 <= i < d.len() ==> is_digit(#[trigger] d[i])
}

proof fn lemma_digits_value_grows(d: Seq<char>, k: int)
    requires
        0 <= k <= d.len(),
    ensures
        digits_value(d) >= digits_value(d.subrange(0, k)),
    decreases d.len(),
{
    if k < d.len() {
        assert(d.drop_last() =~= d.subrange(0, d.len() - 1));
        lemma_digits_value_grows(d.drop_last(), k);
        assert(d.drop_last().subrange(0, k) =~= d.subrange(0, k));
    } else {
        assert(d.subrange(0, k) =~= d);
    }
}

/// Reads a decimal index.
pub fn parse_usize(s: &str) -> (r: Option<usize>)
    ensures
        r matches Some(v) ==> usize_spec(s@) == Some(v as nat),
        r is None ==> usize_spec(s@) is None,
{
    let c = chars_of(s);
    let start: usize = if c.len() > 0 && c[0] == '+' { 1 } else { 0 };
    let ghost d = if c@.len() > 0 && c@[0] == '+' { c@.skip(1) } else { c@ };
    assert(d =~= c@.skip(start as int));
    if start == c.len() {
        return None;
    }
    let mut acc: usize = 0;
    let mut i: usize = start;
    assert(d.subrange(0, 0) =~= Seq::<char>::empty());
    while i < c.len()
        invariant
            start <= i <= c@.len(),
            c@ == s@,
            start == 0 || (c@.len() > 0 && c@[0] == '+' && start == 1),
            start == 0 ==> !(c@.len() > 0 && c@[0] == '+'),
            d == c@.skip(start as int),
            d == unsigned_digits(s@),
            forall|k: int| 0 <= k < i - start ==> is_digit(#[trigger] d[k]),
            acc as nat == digits_value(d.subrange(0, i - start)),
        decreases c@.len() - i,
    {
        let ch = c[i];
        assert(d[i - start] == ch);
        let dv: usize = if ch == '0' { 0 } else if ch == '1' { 1 } else if ch == '2' { 2 }
            else if ch == '3' { 3 } else if ch == '4' { 4 } else if ch == '5' { 5 }
            else if ch == '6' { 6 } else if ch == '7' { 7 } else if ch == '8' { 8 }
            else if ch == '9' { 9 } else { 10 };
        if dv == 10 {
            assert(!is_digit(d[i - start]));
            assert(!all_digits(d));
            assert(usize_spec(s@) is None);
            return None;
        }
        assert(is_digit(ch) && digit_value(ch) == dv as nat);
        let ghost pre = d.subrange(0, i - start);
        let ghost next = d.subrange(0, i - start + 1);
        assert(next.drop_last() =~= pre);
        assert(next.last() == ch);
        assert(digits_value(next) == digits_value(pre) * 10 + digit_value(ch));
        if acc > (usize::MAX - dv) / 10 {
            proof {
                let a = acc as int;
                let v = dv as int;
                assert(a * 10 + v > usize::MAX) by (nonlinear_arith)
                    requires a > (usize::MAX - v) / 10, 0 <= v <= 9;
                lemma_digits_value_grows(d, i - start + 1);
                assert(digits_value(d) > usize::MAX);
                assert(usize_spec(s@) is None);
            }
            return None;
        }
        proof {
            let a = acc as int;
            let v = dv as int;
            assert(a * 10 + v <= usize::MAX) by (nonlinear_arith)
                requires a <= (usize::MAX - v) / 10, 0 <= v <= 9;
        }
        acc = acc * 10 + dv;
        i += 1;
    }
    assert(d.subrange(0, i - start) =~= d);
    Some(acc)
}

// ---------------------------------------------------------------- commands

pub open spec fn watch_spec(t: Seq<Seq<char>>) -> Result<CommandView, Seq<char>> {
    if t.len() < 2 {
        Err("Expected <directory> AFTER WD"@)
    } else if t.len() == 2 {
        Ok(CommandView::WatchDirectory { directory: filename_spec(t[1]) })
    } else {
        Ok(CommandView::WatchDirectory { directory: join_spaces(t.subrange(1, t.len() as int)) })
    }
}

fn parse_watch_directory(tokens: &Vec<String>) -> (r: Result<Command, String>)
    ensures
        outcome(r) == watch_spec(views(tokens@)),
{
    if tokens.len() < 2 {
        return Err(String::from_str("Expected <directory> AFTER WD"));
    }
    let directory = if tokens.len() == 2 {
        parse_filename(tokens[1].as_str())
    } else {
        join_from(tokens, 1)
    };
    Ok(Command::WatchDirectory { directory })
}

pub open spec fn list_spec(t: Seq<Seq<char>>) -> Result<CommandView, Seq<char>> {
    if t.len() > 1 {
        Err("Expected no arguments with LD Command"@)
    } else {
        Ok(CommandView::ListDirectory)
    }
}

fn parse_list_directory(tokens: &Vec<String>) -> (r: Result<Command, String>)
    ensures
        outcome(r) == list_spec(views(tokens@)),
{
    if tokens.len() > 1 {
        return Err(String::from_str("Expected no arguments with LD Command"));
    }
    Ok(Command::ListDirectory)
}

/// The commands that take one file-name argument.
pub enum OneArg {
    MakeDirectory,
    RemoveDirectory,
    MakeFile,
    RemoveFile,
}

pub open spec fn one_arg_usage(k: OneArg) -> Seq<char> {
    match k {
        OneArg::MakeDirectory => "Expected MKDIR <directory>"@,
        OneArg::RemoveDirectory => "Expected RMDIR <directory>"@,
        OneArg::MakeFile => "Expected MKFILE <filename>"@,
        OneArg::RemoveFile => "Expected RMFILE <filename>"@,
    }
}

pub open spec fn one_arg_command(k: OneArg, arg: Seq<char>) -> CommandView {
    match k {
        OneArg::MakeDirectory => CommandView::MakeDirectory { directory: arg },
        OneArg::RemoveDirectory => CommandView::RemoveDirectory { directory: arg },
        OneArg::MakeFile => CommandView::MakeFile { filename: arg },
        OneArg::RemoveFile => CommandView::RemoveFile { filename: arg },
    }
}

pub open spec fn one_arg_spec(k: OneArg, t: Seq<Seq<char>>) -> Result<CommandView, Seq<char>> {
    if t.len() != 2 {
        Err(one_arg_usage(k))
    } else {
        Ok(one_arg_command(k, filename_spec(t[1])))
    }
}

fn parse_one_arg(k: OneArg, tokens: &Vec<String>) -> (r: Result<Command, String>)
    ensures
        outcome(r) == one_arg_spec(k, views(tokens@)),
{
    if tokens.len() != 2 {
        let msg = match k {
            OneArg::MakeDirectory => String::from_str("Expected MKDIR <directory>"),
            OneArg::RemoveDirectory => String::from_str("Expected RMDIR <directory>"),
            OneArg::MakeFile => String::from_str("Expected MKFILE <filename>"),
            OneArg::RemoveFile => String::from_str("Expected RMFILE <filename>"),
        };
        return Err(msg);
    }
    let arg = parse_filename(tokens[1].as_str());
    match k {
        OneArg::MakeDirectory => Ok(Command::MakeDirectory { directory: arg }),
        OneArg::RemoveDirectory => Ok(Command::RemoveDirectory { directory: arg }),
        OneArg::MakeFile => Ok(Command::MakeFile { filename: arg }),
        OneArg::RemoveFile => Ok(Command::RemoveFile { filename: arg }),
    }
}

pub open spec fn rename_spec(dirs: bool, t: Seq<Seq<char>>) -> Result<CommandView, Seq<char>> {
    if t.len() != 3 {
        if dirs {
            Err("Expected RENDIR <old_directory> <new_directory>"@)
        } else {
            Err("Expected RENFILE <old_filename> <new_filename>"@)
        }
    } else if dirs {
        Ok(CommandView::RenameDirectory { old_directory: filename_spec(t[1]), new_directory: filename_spec(t[2]) })
    } else {
        Ok(CommandView::RenameFile { old_filename: filename_spec(t[1]), new_filename: filename_spec(t[2]) })
    }
}

fn parse_rename(dirs: bool, tokens: &Vec<String>) -> (r: Result<Command, String>)
    ensures
        outcome(r) == rename_spec(dirs, views(tokens@)),
{
    if tokens.len() != 3 {
        if dirs {
            return Err(String::from_str("Expected RENDIR <old_directory> <new_directory>"));
        } else {
            return Err(String::from_str("Expected RENFILE <old_filename> <new_filename>"));
        }
    }
    let a = parse_filename(tokens[1].as_str());
    let b = parse_filename(tokens[2].as_str());
    if dirs {
        Ok(Command::RenameDirectory { old_directory: a, new_directory: b })
    } else {
        Ok(Command::RenameFile { old_filename: a, new_filename: b })
    }
}

pub open spec fn drive_spec(t: Seq<Seq<char>>) -> Result<CommandView, Seq<char>> {
    if t.len() != 2 {
        Err("Expected CD <drive>"@)
    } else {
        Ok(CommandView::ChangeDrive { drive: upper_of(t[1]) })
    }
}

fn parse_change_drive(tokens: &Vec<String>) -> (r: Result<Command, String>)
    ensures
        outcome(r) == drive_spec(views(tokens@)),
{
    if tokens.len() != 2 {
        return Err(String::from_str("Expected CD <drive>"));
    }
    Ok(Command::ChangeDrive { drive: uppercase(tokens[1].as_str()) })
}

pub open spec fn select_spec(t: Seq<Seq<char>>) -> Result<CommandView, Seq<char>> {
    if t.len() < 4 {
        Err("SELECT requires: SELECT \"Filename\" FROM \"Directory\""@)
    } else {
        Ok(CommandView::Select { filename: filename_spec(t[1]), directory: t[3] })
    }
}

fn parse_select(tokens: &Vec<String>) -> (r: Result<Command, String>)
    ensures
        outcome(r) == select_spec(views(tokens@)),
{
    if tokens.len() < 4 {
        return Err(String::from_str("SELECT requires: SELECT \"Filename\" FROM \"Directory\""));
    }
    Ok(Command::Select { filename: parse_filename(tokens[1].as_str()), directory: tokens[3].clone() })
}

pub open spec fn view_spec(t: Seq<Seq<char>>) -> Result<CommandView, Seq<char>> {
    if t.len() == 1 && upper_of(t[0]) == "VS"@ {
        Ok(CommandView::ViewState)
    } else if t.len() != 2 || upper_of(t[1]) != "STATE"@ {
        Err("VIEW requires: STATE keyword"@)
    } else if upper_of(t[0]) == "VIEW"@ {
        Ok(CommandView::ViewState)
    } else {
        Err("Expected VIEW STATE or VS\nType LC to viewa list of available commands."@)
    }
}

fn parse_view(tokens: &Vec<String>) -> (r: Result<Command, String>)
    requires
        tokens@.len() > 0,
    ensures
        outcome(r) == view_spec(views(tokens@)),
{
    if tokens.len() == 1 && upper_is(tokens[0].as_str(), "VS") {
        return Ok(Command::ViewState);
    }
    if tokens.len() != 2 {
        return Err(String::from_str("VIEW requires: STATE keyword"));
    }
    if !upper_is(tokens[1].as_str(), "STATE") {
        return Err(String::from_str("VIEW requires: STATE keyword"));
    }
    if upper_is(tokens[0].as_str(), "VIEW") {
        return Ok(Command::ViewState);
    }
    Err(String::from_str("Expected VIEW STATE or VS\nType LC to viewa list of available commands."))
}

pub open spec fn meta_spec(t: Seq<Seq<char>>) -> Result<CommandView, Seq<char>> {
    if t.len() < 2 && upper_of(t[0]) == "MS"@ {
        Ok(CommandView::MetaState)
    } else if t.len() == 2 && upper_of(t[0]) == "META"@ {
        if upper_of(t[1]) != "STATE"@ {
            Err("META requires: STATE keyword"@)
        } else {
            Ok(CommandView::MetaState)
        }
    } else {
        Err("Unknown META or STATE keyword."@)
    }
}

fn parse_meta_state(tokens: &Vec<String>) -> (r: Result<Command, String>)
    requires
        tokens@.len() > 0,
    ensures
        outcome(r) == meta_spec(views(tokens@)),
{
    if tokens.len() < 2 && upper_is(tokens[0].as_str(), "MS") {
        Ok(Command::MetaState)
    } else if tokens.len() == 2 && upper_is(tokens[0].as_str(), "META") {
        if !upper_is(tokens[1].as_str(), "STATE") {
            Err(String::from_str("META requires: STATE keyword"))
        } else {
            Ok(Command::MetaState)
        }
    } else {
        Err(String::from_str("Unknown META or STATE keyword."))
    }
}

pub open spec fn drop_spec(t: Seq<Seq<char>>) -> Result<CommandView, Seq<char>> {
    if t.len() == 1 && upper_of(t[0]) == "DS"@ {
        Ok(CommandView::ClearState)
    } else if t.len() == 2 && upper_of(t[0]) == "DROP"@ && upper_of(t[1]) == "STATE"@ {
        Ok(CommandView::ClearState)
    } else {
        Err("Expected DROP STATE or DS. Type LC to view a list available commands."@)
    }
}

fn parse_drop_state(tokens: &Vec<String>) -> (r: Result<Command, String>)
    requires
        tokens@.len() > 0,
    ensures
        outcome(r) == drop_spec(views(tokens@)),
{
    if tokens.len() == 1 && upper_is(tokens[0].as_str(), "DS") {
        return Ok(Command::ClearState);
    }
    if tokens.len() == 2 && upper_is(tokens[0].as_str(), "DROP") && upper_is(tokens[1].as_str(), "STATE") {
        return Ok(Command::ClearState);
    }
    Err(String::from_str("Expected DROP STATE or DS. Type LC to view a list available commands."))
}

pub open spec fn find_spec(t: Seq<Seq<char>>) -> Result<CommandView, Seq<char>> {
    if t.len() == 2 && upper_of(t[0]) == "FE"@ {
        Ok(CommandView::FindExact { filename: filename_spec(t[1]) })
    } else if t.len() == 3 && upper_of(t[0]) == "FIND"@ && upper_of(t[1]) == "EXACT"@ {
        Ok(CommandView::FindExact { filename: filename_spec(t[2]) })
    } else {
        Err("Expected FIND EXACT or FE \"Filename\", Type LC to view a list of available commands."@)
    }
}

fn parse_find_exact(tokens: &Vec<String>) -> (r: Result<Command, String>)
    requires
        tokens@.len() > 0,
    ensures
        outcome(r) == find_spec(views(tokens@)),
{
    if tokens.len() == 2 && upper_is(tokens[0].as_str(), "FE") {
        return Ok(Command::FindExact { filename: parse_filename(tokens[1].as_str()) });
    }
    if tokens.len() == 3 && upper_is(tokens[0].as_str(), "FIND") && upper_is(tokens[1].as_str(), "EXACT") {
        return Ok(Command::FindExact { filename: parse_filename(tokens[2].as_str()) });
    }
    Err(String::from_str("Expected FIND EXACT or FE \"Filename\", Type LC to view a list of available commands."))
}

/// Whether the lower-case form of `s` is `lit`.
fn lower_is(s: &str, lit: &str) -> (r: bool)
    ensures
        r == (lower_of(s@) == lit@),
{
    let l = lowercase(s);
    is_text(l.as_str(), lit)
}

/// The engine named by a search command's second token.
pub open spec fn engine_spec(name: Seq<char>) -> Option<SearchEngine> {
    let l = lower_of(name);
    if l == "google"@ || l == "g"@ {
        Some(SearchEngine::Google)
    } else if l == "ddg"@ || l == "d"@ {
        Some(SearchEngine::DuckDuckGo)
    } else if l == "chatgpt"@ || l == "c"@ {
        Some(SearchEngine::ChatGPT)
    } else if l == "perplexity"@ || l == "p"@ {
        Some(SearchEngine::Perplexity)
    } else {
        None
    }
}

pub open spec fn search_spec(t: Seq<Seq<char>>) -> Result<CommandView, Seq<char>> {
    if t.len() != 3 {
        Err("SEARCH Expected three arguments!"@)
    } else if lower_of(t[0]) == "search"@ || lower_of(t[0]) == "s"@ {
        match engine_spec(t[1]) {
            Some(e) => Ok(CommandView::Search { engine: e, filename: filename_spec(t[2]) }),
            None => Ok(CommandView::Unknown { command: filename_spec(t[1]) }),
        }
    } else {
        Err("Invalid SEARCH Command. Run LIST COMMANDS or LC to view available commands."@)
    }
}

fn parse_engine(name: &str) -> (r: Option<SearchEngine>)
    ensures
        r == engine_spec(name@),
{
    if lower_is(name, "google") || lower_is(name, "g") {
        Some(SearchEngine::Google)
    } else if lower_is(name, "ddg") || lower_is(name, "d") {
        Some(SearchEngine::DuckDuckGo)
    } else if lower_is(name, "chatgpt") || lower_is(name, "c") {
        Some(SearchEngine::ChatGPT)
    } else if lower_is(name, "perplexity") || lower_is(name, "p") {
        Some(SearchEngine::Perplexity)
    } else {
        None
    }
}

fn parse_search(tokens: &Vec<String>) -> (r: Result<Command, String>)
    ensures
        outcome(r) == search_spec(views(tokens@)),
{
    if tokens.len() != 3 {
        return Err(String::from_str("SEARCH Expected three arguments!"));
    }
    if lower_is(tokens[0].as_str(), "search") || lower_is(tokens[0].as_str(), "s") {
        return match parse_engine(tokens[1].as_str()) {
            Some(engine) => Ok(Command::Search { engine, filename: parse_filename(tokens[2].as_str()) }),
            None => Ok(Command::Unknown { command: parse_filename(tokens[1].as_str()) }),
        };
    }
    Err(String::from_str("Invalid SEARCH Command. Run LIST COMMANDS or LC to view available commands."))
}

pub open spec fn fav_spec(t: Seq<Seq<char>>) -> Result<CommandView, Seq<char>> {
    if t.len() < 2 {
        Err("FAV requires a subcommand (VIEW, SET, RM)"@)
    } else if upper_of(t[1]) == "VIEW"@ {
        Ok(CommandView::FavView)
    } else if upper_of(t[1]) == "SET"@ {
        if t.len() >= 3 && upper_of(t[2]) == "STATE"@ {
            Ok(CommandView::FavSet)
        } else {
            Err("Expected FAV SET STATE"@)
        }
    } else if upper_of(t[1]) == "RM"@ {
        if t.len() < 3 {
            Err("FAV RM requires an index"@)
        } else {
            match usize_spec(t[2]) {
                Some(i) => Ok(CommandView::FavRm { index: i }),
                None => Ok(CommandView::Unknown { command: "Invalid Fav Index"@ }),
            }
        }
    } else {
        Err("Unknown FAV subcommand. Type LC to view a list of available commands."@)
    }
}

fn parse_fav(tokens: &Vec<String>) -> (r: Result<Command, String>)
    ensures
        outcome(r) == fav_spec(views(tokens@)),
{
    if tokens.len() < 2 {
        return Err(String::from_str("FAV requires a subcommand (VIEW, SET, RM)"));
    }
    let sub = tokens[1].as_str();
    if upper_is(sub, "VIEW") {
        Ok(Command::FavView)
    } else if upper_is(sub, "SET") {
        if tokens.len() >= 3 && upper_is(tokens[2].as_str(), "STATE") {
            Ok(Command::FavSet)
        } else {
            Err(String::from_str("Expected FAV SET STATE"))
        }
    } else if upper_is(sub, "RM") {
        if tokens.len() < 3 {
            return Err(String::from_str("FAV RM requires an index"));
        }
        match parse_usize(tokens[2].as_str()) {
            Some(index) => Ok(Command::FavRm { index }),
            None => Ok(Command::Unknown { command: String::from_str("Invalid Fav Index") }),
        }
    } else {
        Err(String::from_str("Unknown FAV subcommand. Type LC to view a list of available commands."))
    }
}

pub open spec fn run_spec(t: Seq<Seq<char>>) -> Result<CommandView, Seq<char>> {
    let k = upper_of(t[0]);
    if t.len() == 2 && k == "RUN"@ {
        if upper_of(t[1]) == "STATE"@ {
            Ok(CommandView::RunState)
        } else {
            Err("Expected RUN STATE or RF"@)
        }
    } else if t.len() == 3 && k == "RUN"@ {
        if upper_of(t[1]) == "FAV"@ {
            match usize_spec(t[2]) {
                Some(i) => Ok(CommandView::RunFav { index: i }),
                None => Ok(CommandView::Unknown { command: "Invalid Fav Index"@ }),
            }
        } else {
            Err("Expected RUN FAV <index> or RF <index>"@)
        }
    } else if t.len() == 1 && k == "RS"@ {
        Ok(CommandView::RunState)
    } else if t.len() == 2 && k == "RF"@ {
        match usize_spec(t[1]) {
            Some(i) => Ok(CommandView::RunFav { index: i }),
            None => Err("Invalid FAV index"@),
        }
    } else {
        Err("Invalid RUN Command. Type LC to view a list of available commands."@)
    }
}

fn parse_run(tokens: &Vec<String>) -> (r: Result<Command, String>)
    requires
        tokens@.len() > 0,
    ensures
        outcome(r) == run_spec(views(tokens@)),
{
    let n = tokens.len();
    let first = tokens[0].as_str();
    if n == 2 && upper_is(first, "RUN") {
        if upper_is(tokens[1].as_str(), "STATE") {
            Ok(Command::RunState)
        } else {
            Err(String::from_str("Expected RUN STATE or RF"))
        }
    } else if n == 3 && upper_is(first, "RUN") {
        if upper_is(tokens[1].as_str(), "FAV") {
            match parse_usize(tokens[2].as_str()) {
                Some(index) => Ok(Command::RunFav { index }),
                None => Ok(Command::Unknown { command: String::from_str("Invalid Fav Index") }),
            }
        } else {
            Err(String::from_str("Expected RUN FAV <index> or RF <index>"))
        }
    } else if n == 1 && upper_is(first, "RS") {
        Ok(Command::RunState)
    } else if n == 2 && upper_is(first, "RF") {
        match parse_usize(tokens[1].as_str()) {
            Some(index) => Ok(Command::RunFav { index }),
            None => Err(String::from_str("Invalid FAV index")),
        }
    } else {
        Err(String::from_str("Invalid RUN Command. Type LC to view a list of available commands."))
    }
}

/// The command for a non-empty token list, dispatched on the upper-case
/// form of its first token; an unrecognised first token gives `Unknown`.
pub open spec fn command_spec(t: Seq<Seq<char>>) -> Result<CommandView, Seq<char>> {
    let k = upper_of(t[0]);
    if k == "LC"@ {
        Ok(CommandView::ListCommands)
    } else if k == "EXIT"@ || k == "/E"@ {
        Ok(CommandView::Exit)
    } else if k == "CLS"@ || k == "/C"@ {
        Ok(CommandView::ClearScreen)
    } else if k == "DD"@ {
        Ok(CommandView::DodgeDirectory)
    } else if k == "WD"@ {
        watch_spec(t)
    } else if k == "LD"@ {
        list_spec(t)
    } else if k == "CD"@ {
        drive_spec(t)
    } else if k == "MKDIR"@ {
        one_arg_spec(OneArg::MakeDirectory, t)
    } else if k == "RMDIR"@ {
        one_arg_spec(OneArg::RemoveDirectory, t)
    } else if k == "RENDIR"@ {
        rename_spec(true, t)
    } else if k == "MKFILE"@ {
        one_arg_spec(OneArg::MakeFile, t)
    } else if k == "RMFILE"@ {
        one_arg_spec(OneArg::RemoveFile, t)
    } else if k == "RENFILE"@ {
        rename_spec(false, t)
    } else if k == "SELECT"@ {
        select_spec(t)
    } else if k == "VIEW"@ || k == "VS"@ {
        view_spec(t)
    } else if k == "DROP"@ || k == "DS"@ {
        drop_spec(t)
    } else if k == "RUN"@ || k == "RS"@ || k == "RF"@ {
        run_spec(t)
    } else if k == "META"@ {
        meta_spec(t)
    } else if k == "FAV"@ {
        fav_spec(t)
    } else if k == "FIND"@ || k == "FE"@ {
        find_spec(t)
    } else if k == "SEARCH"@ || k == "S"@ {
        search_spec(t)
    } else {
        Ok(CommandView::Unknown { command: k })
    }
}

/// What a command line parses to: the tokenizer's error, an error for a
/// line without tokens, or the command for its tokens.
pub open spec fn parse_spec(input: Seq<char>) -> Result<CommandView, Seq<char>> {
    match tokenize_spec(input) {
        Err(e) => Err(e),
        Ok(t) => if t.len() == 0 {
            Err("Empty command."@)
        } else {
            command_spec(t)
        },
    }
}

/// Parses a command line.
pub fn parse_command(input: &str) -> (r: Result<Command, String>)
    ensures
        outcome(r) == parse_spec(input@),
{
    let tokens = match tokenize(input) {
        Ok(t) => t,
        Err(e) => return Err(e),
    };
    if tokens.len() == 0 {
        return Err(String::from_str("Empty command."));
    }
    let k = uppercase(tokens[0].as_str());
    let k = k.as_str();
    if is_text(k, "LC") {
        Ok(Command::ListCommands)
    } else if is_text(k, "EXIT") || is_text(k, "/E") {
        Ok(Command::Exit)
    } else if is_text(k, "CLS") || is_text(k, "/C") {
        Ok(Command::ClearScreen)
    } else if is_text(k, "DD") {
        Ok(Command::DodgeDirectory)
    } else if is_text(k, "WD") {
        parse_watch_directory(&tokens)
    } else if is_text(k, "LD") {
        parse_list_directory(&tokens)
    } else if is_text(k, "CD") {
        parse_change_drive(&tokens)
    } else if is_text(k, "MKDIR") {
        parse_one_arg(OneArg::MakeDirectory, &tokens)
    } else if is_text(k, "RMDIR") {
        parse_one_arg(OneArg::RemoveDirectory, &tokens)
    } else if is_text(k, "RENDIR") {
        parse_rename(true, &tokens)
    } else if is_text(k, "MKFILE") {
        parse_one_arg(OneArg::MakeFile, &tokens)
    } else if is_text(k, "RMFILE") {
        parse_one_arg(OneArg::RemoveFile, &tokens)
    } else if is_text(k, "RENFILE") {
        parse_rename(false, &tokens)
    } else if is_text(k, "SELECT") {
        parse_select(&tokens)
    } else if is_text(k, "VIEW") || is_text(k, "VS") {
        parse_view(&tokens)
    } else if is_text(k, "DROP") || is_text(k, "DS") {
        parse_drop_state(&tokens)
    } else if is_text(k, "RUN") || is_text(k, "RS") || is_text(k, "RF") {
        parse_run(&tokens)
    } else if is_text(k, "META") {
        parse_meta_state(&tokens)
    } else if is_text(k, "FAV") {
        parse_fav(&tokens)
    } else if is_text(k, "FIND") || is_text(k, "FE") {
        parse_find_exact(&tokens)
    } else if is_text(k, "SEARCH") || is_text(k, "S") {
        parse_search(&tokens)
    } else {
        Ok(Command::Unknown { command: String::from_str(k) })
    }
}

} // verus!
