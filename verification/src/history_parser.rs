//! Turns shell history and recorded prompts into the lines of a script.
//!
//! The history is read from its newest line towards its oldest. Reading stops
//! at the command that started the build; administrative commands are
//! dropped, prompt commands become `read` statements, and everything else is
//! kept as it was typed.

use vstd::prelude::*;
use crate::error::ErrorKind;
use crate::script::{Variable, VariableView, variable_views};
use crate::text::{
    append_chars, chars_of, is_space, trim_start_by, trim_end_by, string_of, contains, contains_exec, starts_with, starts_with_exec, same_text, trim,
    trim_by, trim_by_exec, Strip, strip_repeated_prefix, strip_repeated_prefix_exec, split,
    split_exec, join, join_from_exec, lines, lines_exec, texts,
};

verus! {

/// The command that builds a script.
pub open spec fn build_cmd() -> Seq<char> {
    "please build"@
}

/// The first line of every script.
pub open spec fn shebang() -> Seq<char> {
    "#!/bin/sh\n"@
}

/// The line that makes a script stop at the first failing command.
pub open spec fn fail_fast() -> Seq<char> {
    "set -e\n"@
}

/// The administrative commands that never reach a script.
pub open spec fn ignored_phrases() -> Seq<Seq<char>> {
    seq![
        "please current"@,
        "please list"@,
        "please build"@,
        "please build --help"@,
        "please build -h"@,
        "cargo run -- list"@,
        "cargo run -- current"@,
        "please ask --help"@,
        "please ask -h"@,
    ]
}

/// `cmd` holds one of the administrative commands somewhere in its text.
pub open spec fn ignored_command(cmd: Seq<char>) -> bool {
    exists|k: int|
        0 <= k < ignored_phrases().len() && contains(cmd, #[trigger] ignored_phrases()[k])
}

/// `cmd` is, letter for letter, one of the administrative commands.
pub open spec fn ignored_phrase(cmd: Seq<char>) -> bool {
    exists|k: int| 0 <= k < ignored_phrases().len() && cmd == #[trigger] ignored_phrases()[k]
}

/// `cmd` records a prompt: it invokes `ask` and is not a help request.
pub open spec fn please_ask(cmd: Seq<char>) -> bool {
    (contains(cmd, "please ask"@) || contains(cmd, "cargo run -- ask"@)) && !ignored_phrase(cmd)
}

/// What follows the build command in `line`, without surrounding white space.
pub open spec fn build_argument(line: Seq<char>) -> Seq<char> {
    trim(strip_repeated_prefix(trim(line), build_cmd()))
}

/// `line` starts a build: the build command with an argument that is not a
/// help flag.
pub open spec fn start_of_build(line: Seq<char>) -> bool {
    &&& starts_with(line, build_cmd())
    &&& build_argument(line).len() > 0
    &&& build_argument(line) != "--help"@
    &&& build_argument(line) != "-h"@
}

/// The command of a history line: what follows its first semicolon, without
/// surrounding white space. A line without a semicolon has the empty command.
pub open spec fn payload(line: Seq<char>) -> Seq<char> {
    trim(join(split(line, ';').skip(1), ';'))
}

/// The commands of a history, oldest first.
pub open spec fn payloads(history: Seq<char>) -> Seq<Seq<char>> {
    Seq::new(lines(history).len(), |i: int| payload(lines(history)[i]))
}

/// The position of the first token that begins with `ask`, or the number of
/// tokens where there is none.
pub open spec fn first_ask_token(tokens: Seq<Seq<char>>) -> int
    decreases tokens.len(),
{
    if tokens.len() == 0 {
        0
    } else if starts_with(tokens[0], "ask"@) {
        0
    } else {
        1 + first_ask_token(tokens.skip(1))
    }
}

/// The prompt of an `ask` command: the words after the first word that begins
/// with `ask`, with the double quotes taken off both ends.
pub open spec fn prompt_of(cmd: Seq<char>) -> Seq<char> {
    let tokens = split(cmd, ' ');
    let k = first_ask_token(tokens);
    if k < tokens.len() {
        trim_by(join(tokens.skip(k + 1), ' '), Strip::Quote)
    } else {
        Seq::<char>::empty()
    }
}

/// The shell statement that shows `prompt` and reads the answer into `name`.
pub open spec fn read_statement(prompt: Seq<char>, name: Seq<char>) -> Seq<char> {
    "read -p \""@ + prompt + " \" "@ + name
}

/// The script lines that the commands `cmds` (oldest first) give, oldest
/// first, or `None` where a prompt command finds no variable left.
///
/// The newest command is looked at first. A command that starts a build ends
/// the script: neither it nor anything older is included. A prompt command
/// takes the newest variable not yet taken and gives its `read` statement
/// followed by the variable's expression.
pub open spec fn script_body(cmds: Seq<Seq<char>>, vars: Seq<VariableView>) -> Option<
    Seq<Seq<char>>,
>
    decreases cmds.len(),
{
    if cmds.len() == 0 {
        Some(Seq::empty())
    } else {
        let cmd = cmds.last();
        if start_of_build(cmd) {
            Some(Seq::empty())
        } else if ignored_command(cmd) {
            script_body(cmds.drop_last(), vars)
        } else if please_ask(cmd) {
            if vars.len() == 0 {
                None
            } else {
                followed_by(
                    script_body(cmds.drop_last(), vars.drop_last()),
                    seq![read_statement(prompt_of(cmd), vars.last().value), vars.last().expr],
                )
            }
        } else {
            followed_by(script_body(cmds.drop_last(), vars), seq![cmd])
        }
    }
}

/// `head`, where there is one, with `tail` after it.
pub open spec fn followed_by(head: Option<Seq<Seq<char>>>, tail: Seq<Seq<char>>) -> Option<
    Seq<Seq<char>>,
> {
    match head {
        Some(lines) => Some(lines + tail),
        None => None,
    }
}

/// The two lines that open every script.
pub open spec fn header() -> Seq<Seq<char>> {
    seq![shebang(), fail_fast()]
}

/// The lines of the script that `history` and `vars` give.
pub open spec fn script_lines(history: Seq<char>, vars: Seq<VariableView>) -> Option<
    Seq<Seq<char>>,
> {
    match script_body(payloads(history), vars) {
        Some(body) => Some(header() + body),
        None => None,
    }
}

/// The views of the strings in `v`.
pub open spec fn line_texts(v: Seq<String>) -> Seq<Seq<char>> {
    Seq::new(v.len(), |i: int| v[i]@)
}

/// The texts of `v`, last first.
pub open spec fn texts_reversed(v: Seq<Vec<char>>) -> Seq<Seq<char>> {
    Seq::new(v.len(), |i: int| v[v.len() - 1 - i]@)
}

fn phrase_table() -> (table: Vec<Vec<char>>)
    ensures
        texts(table@) == ignored_phrases(),
{
    let mut table: Vec<Vec<char>> = Vec::new();
    table.push(chars_of("please current"));
    table.push(chars_of("please list"));
    table.push(chars_of("please build"));
    table.push(chars_of("please build --help"));
    table.push(chars_of("please build -h"));
    table.push(chars_of("cargo run -- list"));
    table.push(chars_of("cargo run -- current"));
    table.push(chars_of("please ask --help"));
    table.push(chars_of("please ask -h"));
    assert(texts(table@) =~= ignored_phrases());
    table
}

/// Whether `cmd` holds one of the administrative commands.
pub fn is_ignored_chars(cmd: &Vec<char>) -> (r: bool)
    ensures
        r == ignored_command(cmd@),
{
    let table = phrase_table();
    let mut k: usize = 0;
    while k < table.len()
        invariant
            k <= table.len(),
            texts(table@) == ignored_phrases(),
            forall|j: int| 0 <= j < k ==> !contains(cmd@, #[trigger] ignored_phrases()[j]),
        decreases table.len() - k,
    {
        assert(texts(table@)[k as int] == table@[k as int]@);
        if contains_exec(cmd, &table[k]) {
            return true;
        }
        k += 1;
    }
    assert(texts(table@).len() == table.len());
    false
}

fn is_ignored_phrase_chars(cmd: &Vec<char>) -> (r: bool)
    ensures
        r == ignored_phrase(cmd@),
{
    let table = phrase_table();
    let mut k: usize = 0;
    while k < table.len()
        invariant
            k <= table.len(),
            texts(table@) == ignored_phrases(),
            forall|j: int| 0 <= j < k ==> cmd@ != #[trigger] ignored_phrases()[j],
        decreases table.len() - k,
    {
        assert(texts(table@)[k as int] == table@[k as int]@);
        if same_text(cmd, &table[k]) {
            return true;
        }
        k += 1;
    }
    assert(texts(table@).len() == table.len());
    false
}

/// Whether `cmd` records a prompt.
pub fn is_please_ask_chars(cmd: &Vec<char>) -> (r: bool)
    ensures
        r == please_ask(cmd@),
{
    let direct = chars_of("please ask");
    let through_cargo = chars_of("cargo run -- ask");
    let is_ask = contains_exec(cmd, &direct) || contains_exec(cmd, &through_cargo);
    is_ask && !is_ignored_phrase_chars(cmd)
}

/// Whether `line` starts a build.
pub fn is_start_of_build_chars(line: &Vec<char>) -> (r: bool)
    ensures
        r == start_of_build(line@),
{
    let build = chars_of("please build");
    if !starts_with_exec(line, &build) {
        return false;
    }
    let trimmed = trim_by_exec(line, Strip::Whitespace);
    let stripped = strip_repeated_prefix_exec(&trimmed, &build);
    let remainder = trim_by_exec(&stripped, Strip::Whitespace);
    let long_help = chars_of("--help");
    let short_help = chars_of("-h");
    if same_text(&remainder, &long_help) || same_text(&remainder, &short_help) {
        false
    } else {
        remainder.len() > 0
    }
}

/// Whether the command `line` records a prompt: it holds `please ask` or
/// `cargo run -- ask` and is not itself an administrative command.
pub fn is_please_ask(line: &str) -> (r: bool)
    ensures
        r == please_ask(line@),
{
    let cmd = chars_of(line);
    is_please_ask_chars(&cmd)
}

/// Whether the command `line` starts a build: `please build` followed by
/// something other than a help flag.
pub fn is_start_of_build(line: &str) -> (r: bool)
    ensures
        r == start_of_build(line@),
{
    let cmd = chars_of(line);
    is_start_of_build_chars(&cmd)
}

/// Whether the command `line` holds an administrative command and so is left
/// out of every script.
pub fn is_ignored(line: &str) -> (r: bool)
    ensures
        r == ignored_command(line@),
{
    let cmd = chars_of(line);
    is_ignored_chars(&cmd)
}

/// The command of one history line.
pub fn payload_of(line: &Vec<char>) -> (out: Vec<char>)
    ensures
        out@ == payload(line@),
{
    let pieces = split_exec(line, ';');
    let rest = join_from_exec(&pieces, 1, ';');
    trim_by_exec(&rest, Strip::Whitespace)
}

/// The prompt of the `ask` command `cmd`.
pub fn prompt_text(cmd: &Vec<char>) -> (out: Vec<char>)
    ensures
        out@ == prompt_of(cmd@),
{
    let tokens = split_exec(cmd, ' ');
    let ask = chars_of("ask");
    let ghost all = texts(tokens@);
    let mut k: usize = 0;
    assert(all.skip(0) =~= all);
    while k < tokens.len() && !starts_with_exec(&tokens[k], &ask)
        invariant
            k <= tokens.len(),
            all == texts(tokens@),
            ask@ == "ask"@,
            first_ask_token(all) == k + first_ask_token(all.skip(k as int)),
        decreases tokens.len() - k,
    {
        assert(all.skip(k as int)[0] == tokens@[k as int]@);
        assert(all.skip(k as int).skip(1) =~= all.skip(k + 1));
        k += 1;
    }
    if k < tokens.len() {
        assert(all.skip(k as int)[0] == tokens@[k as int]@);
        let rest = join_from_exec(&tokens, k + 1, ' ');
        trim_by_exec(&rest, Strip::Quote)
    } else {
        assert(all.skip(k as int).len() == 0);
        Vec::new()
    }
}

/// The `read` statement for `prompt` and the variable `name`.
pub fn read_line(prompt: &Vec<char>, name: &str) -> (out: Vec<char>)
    ensures
        out@ == read_statement(prompt@, name@),
{
    let mut out = chars_of("read -p \"");
    append_chars(&mut out, prompt);
    let middle = chars_of(" \" ");
    append_chars(&mut out, &middle);
    let name_chars = chars_of(name);
    append_chars(&mut out, &name_chars);
    out
}

/// The shells whose history can be read.
#[derive(Clone, Copy, Debug, PartialEq, Eq, Structural)]
pub enum Shell {
    /// Extended zsh history: `: <start>:<elapsed>;<command>` on each line.
    Zsh,
}

/// Turns a history and the recorded variables into script lines.
pub trait HistoryParser {
    /// The script lines that this parser owes for `history` and `vars`, or
    /// `None` where the two do not fit together.
    spec fn compiled(&self, history: Seq<char>, vars: Seq<VariableView>) -> Option<
        Seq<Seq<char>>,
    >;

    /// Compiles `history` with `variables` into the lines of a script, first
    /// line first. Fails exactly where the history asks for more prompts than
    /// there are variables.
    fn parse_history(&self, history: String, variables: &Vec<Variable>) -> (res: Result<
        Vec<String>,
        ErrorKind,
    >)
        ensures
            match res {
                Ok(out) => self.compiled(history@, variable_views(variables@)) == Some(
                    line_texts(out@),
                ),
                Err(e) => e == ErrorKind::ParseInconsistency && self.compiled(
                    history@,
                    variable_views(variables@),
                ) is None,
            },
    ;
}

/// A history parser for one shell.
pub struct Parser {
    pub shell: Shell,
}

/// The parser for the history format in use.
pub fn get_parser() -> (parser: Parser)
    ensures
        parser.shell == Shell::Zsh,
{
    Parser { shell: Shell::Zsh }
}

impl HistoryParser for Parser {
    open spec fn compiled(&self, history: Seq<char>, vars: Seq<VariableView>) -> Option<
        Seq<Seq<char>>,
    > {
        script_lines(history, vars)
    }

    fn parse_history(&self, history: String, variables: &Vec<Variable>) -> (res: Result<
        Vec<String>,
        ErrorKind,
    >) {
        let text = chars_of(history.as_str());
        let log = lines_exec(&text);
        let ghost cmds = payloads(history@);
        let ghost vars = variable_views(variables@);
        let mut found: Vec<Vec<char>> = Vec::new();
        let mut i: usize = log.len();
        let mut k: usize = variables.len();
        let mut stop = false;
        proof {
            assert(texts(log@).len() == log.len());
            assert(cmds.take(i as int) =~= cmds);
            assert(vars.take(k as int) =~= vars);
            let whole = script_body(cmds, vars);
            assert(followed_by(whole, texts_reversed(found@)) == whole) by {
                if let Some(b) = whole {
                    assert(b + texts_reversed(found@) =~= b);
                }
            }
        }
        while i > 0 && !stop
            invariant
                i <= log.len(),
                k <= variables.len(),
                cmds == payloads(history@),
                cmds.len() == log.len(),
                texts(log@) == lines(history@),
                vars == variable_views(variables@),
                script_body(cmds, vars) == followed_by(
                    if stop {
                        Some(Seq::empty())
                    } else {
                        script_body(cmds.take(i as int), vars.take(k as int))
                    },
                    texts_reversed(found@),
                ),
            decreases i + (if stop { 0int } else { 1int }),
        {
            let cmd = payload_of(&log[i - 1]);
            let ghost before = texts_reversed(found@);
            let ghost older = cmds.take(i - 1);
            proof {
                assert(texts(log@)[i - 1] == log@[i - 1]@);
                assert(cmds.take(i as int).last() == cmd@);
                assert(cmds.take(i as int).drop_last() =~= older);
            }
            if is_start_of_build_chars(&cmd) {
                stop = true;
            } else if is_ignored_chars(&cmd) {
                i -= 1;
            } else if is_please_ask_chars(&cmd) {
                if k == 0 {
                    return Err(ErrorKind::ParseInconsistency);
                }
                let var = &variables[k - 1];
                let prompt = prompt_text(&cmd);
                let statement = read_line(&prompt, var.value.as_str());
                let ghost fewer = vars.take(k - 1);
                proof {
                    assert(vars.take(k as int).last() == var@);
                    assert(vars.take(k as int).drop_last() =~= fewer);
                }
                found.push(chars_of(var.expr.as_str()));
                found.push(statement);
                proof {
                    let pair = seq![statement@, var.expr@];
                    assert(texts_reversed(found@) =~= pair + before);
                    if let Some(b) = script_body(older, fewer) {
                        assert((b + pair) + before =~= b + (pair + before));
                    }
                }
                i -= 1;
                k -= 1;
            } else {
                found.push(cmd);
                proof {
                    let one = seq![cmd@];
                    assert(texts_reversed(found@) =~= one + before);
                    if let Some(b) = script_body(older, vars.take(k as int)) {
                        assert((b + one) + before =~= b + (one + before));
                    }
                }
                i -= 1;
            }
        }
        let ghost body = texts_reversed(found@);
        proof {
            if !stop {
                assert(cmds.take(0).len() == 0);
            }
            assert(Seq::<Seq<char>>::empty() + body =~= body);
            assert(script_body(cmds, vars) == Some(body));
        }
        found.push(chars_of("set -e\n"));
        found.push(chars_of("#!/bin/sh\n"));
        assert(texts_reversed(found@) =~= header() + body);
        let mut out: Vec<String> = Vec::new();
        let mut j: usize = found.len();
        while j > 0
            invariant
                j <= found.len(),
                out.len() == found.len() - j,
                forall|m: int| 0 <= m < out.len() ==> out@[m]@ == found@[found.len() - 1 - m]@,
            decreases j,
        {
            out.push(string_of(&found[j - 1]));
            j -= 1;
        }
        assert(line_texts(out@) =~= texts_reversed(found@));
        Ok(out)
    }
}

/// The commands that are read: those newer than the newest command that
/// starts a build, oldest first.
pub open spec fn scanned(cmds: Seq<Seq<char>>) -> Seq<Seq<char>>
    decreases cmds.len(),
{
    if cmds.len() == 0 || start_of_build(cmds.last()) {
        Seq::empty()
    } else {
        scanned(cmds.drop_last()).push(cmds.last())
    }
}

/// How many of `cmds` take a variable: the prompt commands that are not
/// dropped as administrative.
pub open spec fn ask_count(cmds: Seq<Seq<char>>) -> nat
    decreases cmds.len(),
{
    if cmds.len() == 0 {
        0
    } else if !ignored_command(cmds.last()) && please_ask(cmds.last()) {
        ask_count(cmds.drop_last()) + 1
    } else {
        ask_count(cmds.drop_last())
    }
}

/// How many script lines `cmds` give: none for an administrative command,
/// two for a prompt command, one for any other.
pub open spec fn line_count(cmds: Seq<Seq<char>>) -> nat
    decreases cmds.len(),
{
    if cmds.len() == 0 {
        0
    } else if ignored_command(cmds.last()) {
        line_count(cmds.drop_last())
    } else if please_ask(cmds.last()) {
        line_count(cmds.drop_last()) + 2
    } else {
        line_count(cmds.drop_last()) + 1
    }
}

/// The commands that are read are the newest ones, none of them starts a
/// build, and the script depends on them alone.
pub proof fn lemma_scanned(cmds: Seq<Seq<char>>, vars: Seq<VariableView>)
    ensures
        scanned(cmds).len() <= cmds.len(),
        scanned(cmds) == cmds.skip(cmds.len() - scanned(cmds).len()),
        forall|i: int| 0 <= i < scanned(cmds).len() ==> !start_of_build(#[trigger] scanned(cmds)[i]),
        scanned(cmds).len() < cmds.len() ==> start_of_build(
            cmds[cmds.len() - scanned(cmds).len() - 1],
        ),
        script_body(cmds, vars) == script_body(scanned(cmds), vars),
    decreases cmds.len(),
{
    if cmds.len() == 0 || start_of_build(cmds.last()) {
        assert(scanned(cmds) =~= cmds.skip(cmds.len() - scanned(cmds).len()));
    } else {
        let front = cmds.drop_last();
        let read = scanned(cmds);
        lemma_scanned(front, vars);
        assert(read.drop_last() =~= scanned(front));
        assert(read.last() == cmds.last());
        assert(read =~= cmds.skip(cmds.len() - read.len()));
        if vars.len() > 0 {
            lemma_scanned(front, vars.drop_last());
        }
    }
}

/// A history in which no command starts a build is read to its first line.
pub proof fn lemma_scanned_without_start(cmds: Seq<Seq<char>>)
    requires
        forall|i: int| 0 <= i < cmds.len() ==> !start_of_build(#[trigger] cmds[i]),
    ensures
        scanned(cmds) == cmds,
    decreases cmds.len(),
{
    if cmds.len() > 0 {
        lemma_scanned_without_start(cmds.drop_last());
        assert(cmds.drop_last().push(cmds.last()) =~= cmds);
    } else {
        assert(scanned(cmds) =~= cmds);
    }
}

/// Commands of which none starts a build give a script exactly where the
/// variables suffice for their prompts, and then each command gives its
/// lines.
pub proof fn lemma_body_without_start(cmds: Seq<Seq<char>>, vars: Seq<VariableView>)
    requires
        forall|i: int| 0 <= i < cmds.len() ==> !start_of_build(#[trigger] cmds[i]),
    ensures
        script_body(cmds, vars) is Some <==> ask_count(cmds) <= vars.len(),
        script_body(cmds, vars) is Some ==> script_body(cmds, vars)->0.len() == line_count(cmds),
    decreases cmds.len(),
{
    if cmds.len() > 0 {
        let front = cmds.drop_last();
        assert(forall|i: int| 0 <= i < front.len() ==> front[i] == cmds[i]);
        let cmd = cmds.last();
        assert(!start_of_build(cmd));
        if ignored_command(cmd) {
            lemma_body_without_start(front, vars);
        } else if please_ask(cmd) {
            if vars.len() > 0 {
                lemma_body_without_start(front, vars.drop_last());
            }
        } else {
            lemma_body_without_start(front, vars);
        }
    }
}

/// Compiling fails exactly where the commands that are read hold more prompt
/// commands than there are variables.
pub proof fn lemma_fails_iff_asks_exceed_variables(history: Seq<char>, vars: Seq<VariableView>)
    ensures
        script_lines(history, vars) is None <==> ask_count(scanned(payloads(history)))
            > vars.len(),
{
    let cmds = payloads(history);
    lemma_scanned(cmds, vars);
    lemma_body_without_start(scanned(cmds), vars);
}

/// A history in which no command starts a build is read to its first line:
/// where the variables suffice for its prompts, the script opens with the
/// shebang and the fail-fast line, and after them every command of the
/// history has its lines.
pub proof fn lemma_history_without_start(history: Seq<char>, vars: Seq<VariableView>)
    requires
        forall|i: int|
            0 <= i < payloads(history).len() ==> !start_of_build(#[trigger] payloads(history)[i]),
        ask_count(payloads(history)) <= vars.len(),
    ensures
        scanned(payloads(history)) == payloads(history),
        script_lines(history, vars) is Some,
        script_lines(history, vars)->0.len() == 2 + line_count(payloads(history)),
        script_lines(history, vars)->0[0] == shebang(),
        script_lines(history, vars)->0[1] == fail_fast(),
        script_lines(history, vars)->0.skip(2) == script_body(payloads(history), vars)->0,
{
    let cmds = payloads(history);
    lemma_scanned_without_start(cmds);
    lemma_body_without_start(cmds, vars);
    let body = script_body(cmds, vars)->0;
    assert((header() + body).skip(2) =~= body);
}

/// Where every command that is read is administrative, the script is its
/// two opening lines and nothing else.
pub proof fn lemma_only_ignored_commands(history: Seq<char>, vars: Seq<VariableView>)
    requires
        forall|i: int|
            0 <= i < scanned(payloads(history)).len() ==> ignored_command(
                #[trigger] scanned(payloads(history))[i],
            ),
    ensures
        script_lines(history, vars) == Some(header()),
{
    let cmds = payloads(history);
    lemma_scanned(cmds, vars);
    lemma_body_of_ignored(scanned(cmds), vars);
    assert(header() + Seq::<Seq<char>>::empty() =~= header());
}

proof fn lemma_body_of_ignored(cmds: Seq<Seq<char>>, vars: Seq<VariableView>)
    requires
        forall|i: int| 0 <= i < cmds.len() ==> ignored_command(#[trigger] cmds[i]),
    ensures
        script_body(cmds, vars) == Some(Seq::<Seq<char>>::empty()),
    decreases cmds.len(),
{
    if cmds.len() > 0 {
        let front = cmds.drop_last();
        assert(forall|i: int| 0 <= i < front.len() ==> front[i] == cmds[i]);
        assert(ignored_command(cmds.last()));
        lemma_body_of_ignored(front, vars);
    }
}

/// Every administrative command begins with `p` or `c`.
proof fn lemma_phrase_heads()
    ensures
        forall|k: int|
            0 <= k < ignored_phrases().len() ==> {
                let phrase = #[trigger] ignored_phrases()[k];
                phrase.len() > 0 && (phrase[0] == 'p' || phrase[0] == 'c')
            },
{
    reveal_strlit("please current");
    reveal_strlit("please list");
    reveal_strlit("please build");
    reveal_strlit("please build --help");
    reveal_strlit("please build -h");
    reveal_strlit("cargo run -- list");
    reveal_strlit("cargo run -- current");
    reveal_strlit("please ask --help");
    reveal_strlit("please ask -h");
}

/// A text that is an administrative command also holds one.
pub proof fn lemma_phrase_is_ignored(cmd: Seq<char>)
    requires
        ignored_phrase(cmd),
    ensures
        ignored_command(cmd),
{
    let k = choose|k: int| 0 <= k < ignored_phrases().len() && cmd == #[trigger] ignored_phrases()[k];
    assert(cmd.subrange(0, cmd.len() as int) =~= cmd);
    assert(crate::text::matches_at(cmd, 0, ignored_phrases()[k]));
}

proof fn lemma_body_free_of_phrases(cmds: Seq<Seq<char>>, vars: Seq<VariableView>)
    requires
        forall|j: int|
            0 <= j < vars.len() && vars.len() - ask_count(scanned(cmds)) <= j ==> !ignored_phrase(
                (#[trigger] vars[j]).expr,
            ),
    ensures
        script_body(cmds, vars) is Some ==> forall|i: int|
            0 <= i < script_body(cmds, vars)->0.len() ==> !ignored_phrase(
                #[trigger] script_body(cmds, vars)->0[i],
            ),
    decreases cmds.len(),
{
    if cmds.len() > 0 && !start_of_build(cmds.last()) {
        let front = cmds.drop_last();
        let cmd = cmds.last();
        assert(scanned(cmds).drop_last() =~= scanned(front));
        if ignored_command(cmd) {
            lemma_body_free_of_phrases(front, vars);
        } else if please_ask(cmd) {
            if vars.len() > 0 {
                let fewer = vars.drop_last();
                assert(forall|j: int| 0 <= j < fewer.len() ==> fewer[j] == vars[j]);
                lemma_body_free_of_phrases(front, fewer);
                let statement = read_statement(prompt_of(cmd), vars.last().value);
                assert(!ignored_phrase(statement)) by {
                    reveal_strlit("read -p \"");
                    lemma_phrase_heads();
                    assert(statement[0] == 'r');
                }
                assert(!ignored_phrase(vars[vars.len() - 1].expr));
            }
        } else {
            lemma_body_free_of_phrases(front, vars);
            if ignored_phrase(cmd) {
                lemma_phrase_is_ignored(cmd);
            }
        }
    }
}

/// No line of a script is, letter for letter, an administrative command,
/// provided that no variable that a prompt command takes has such a command
/// as its expression.
pub proof fn lemma_no_ignored_phrase_in_script(history: Seq<char>, vars: Seq<VariableView>)
    requires
        forall|j: int|
            0 <= j < vars.len() && vars.len() - ask_count(scanned(payloads(history))) <= j
                ==> !ignored_phrase((#[trigger] vars[j]).expr),
    ensures
        script_lines(history, vars) is Some ==> forall|i: int|
            0 <= i < script_lines(history, vars)->0.len() ==> !ignored_phrase(
                #[trigger] script_lines(history, vars)->0[i],
            ),
{
    let cmds = payloads(history);
    lemma_body_free_of_phrases(cmds, vars);
    if let Some(body) = script_body(cmds, vars) {
        let all = header() + body;
        lemma_phrase_heads();
        reveal_strlit("#!/bin/sh\n");
        reveal_strlit("set -e\n");
        assert(!ignored_phrase(shebang()));
        assert(!ignored_phrase(fail_fast()));
        assert forall|i: int| 0 <= i < all.len() implies !ignored_phrase(#[trigger] all[i]) by {
            if i >= 2 {
                assert(all[i] == body[i - 2]);
            }
        }
    }
}

/// The script lines that one command gives, with `var` as the variable it
/// takes where it is a prompt command.
pub open spec fn lines_of_command(cmd: Seq<char>, var: VariableView) -> Seq<Seq<char>> {
    if ignored_command(cmd) {
        Seq::empty()
    } else if please_ask(cmd) {
        seq![read_statement(prompt_of(cmd), var.value), var.expr]
    } else {
        seq![cmd]
    }
}

/// The script lines of `cmds`, oldest first, where the prompt commands take
/// the variables in the order of recording: the oldest prompt command takes
/// `vars[0]`, the next one `vars[1]`, and so on.
pub open spec fn paired_lines(cmds: Seq<Seq<char>>, vars: Seq<VariableView>) -> Seq<Seq<char>>
    decreases cmds.len(),
{
    if cmds.len() == 0 {
        Seq::empty()
    } else {
        paired_lines(cmds.drop_last(), vars) + lines_of_command(
            cmds.last(),
            vars[ask_count(cmds.drop_last()) as int],
        )
    }
}

/// The paired lines of `cmds` depend on as many variables as `cmds` holds
/// prompt commands, and on no more.
proof fn lemma_paired_lines_read_prefix(
    cmds: Seq<Seq<char>>,
    vars: Seq<VariableView>,
    others: Seq<VariableView>,
)
    requires
        forall|j: int| 0 <= j < ask_count(cmds) ==> vars[j] == others[j],
    ensures
        paired_lines(cmds, vars) == paired_lines(cmds, others),
    decreases cmds.len(),
{
    if cmds.len() > 0 {
        lemma_paired_lines_read_prefix(cmds.drop_last(), vars, others);
    }
}

/// Among commands of which none starts a build, the prompt commands take
/// the newest variables, and take them in the order of recording. Variables
/// older than those are left unused.
pub proof fn lemma_prompts_pair_in_recorded_order(cmds: Seq<Seq<char>>, vars: Seq<VariableView>)
    requires
        forall|i: int| 0 <= i < cmds.len() ==> !start_of_build(#[trigger] cmds[i]),
        ask_count(cmds) <= vars.len(),
    ensures
        script_body(cmds, vars) == Some(
            paired_lines(cmds, vars.skip(vars.len() - ask_count(cmds))),
        ),
    decreases cmds.len(),
{
    if cmds.len() > 0 {
        let front = cmds.drop_last();
        let cmd = cmds.last();
        let used = vars.skip(vars.len() - ask_count(cmds));
        assert(forall|i: int| 0 <= i < front.len() ==> front[i] == cmds[i]);
        assert(!start_of_build(cmd));
        if !ignored_command(cmd) && please_ask(cmd) {
            let fewer = vars.drop_last();
            lemma_prompts_pair_in_recorded_order(front, fewer);
            let before = fewer.skip(fewer.len() - ask_count(front));
            assert forall|j: int| 0 <= j < ask_count(front) implies before[j] == used[j] by {}
            lemma_paired_lines_read_prefix(front, before, used);
            assert(used[ask_count(front) as int] == vars.last());
        } else {
            lemma_prompts_pair_in_recorded_order(front, vars);
        }
    }
}

/// The script of a history is its two opening lines followed by the lines
/// of the commands that are read, in the order in which they were typed;
/// each prompt command is paired with the variable recorded for it, the
/// newest prompt command with the newest variable.
pub proof fn lemma_script_in_typed_order(history: Seq<char>, vars: Seq<VariableView>)
    requires
        ask_count(scanned(payloads(history))) <= vars.len(),
    ensures
        script_lines(history, vars) == Some(
            header() + paired_lines(
                scanned(payloads(history)),
                vars.skip(vars.len() - ask_count(scanned(payloads(history)))),
            ),
        ),
{
    let cmds = payloads(history);
    lemma_scanned(cmds, vars);
    lemma_prompts_pair_in_recorded_order(scanned(cmds), vars);
}

/// A text that neither begins nor ends with white space is its own trim.
pub proof fn lemma_trim_of_trimmed(s: Seq<char>)
    requires
        s.len() > 0 ==> !is_space(s[0]) && !is_space(s.last()),
    ensures
        trim(s) == s,
{
}

/// The build command alone has no argument and starts no build.
pub proof fn lemma_bare_build_command()
    ensures
        build_argument(build_cmd()).len() == 0,
        !start_of_build(build_cmd()),
{
    reveal_strlit("please build");
    let cmd = build_cmd();
    lemma_trim_of_trimmed(cmd);
    assert(cmd.subrange(0, cmd.len() as int) =~= cmd);
    let rest = cmd.skip(cmd.len() as int);
    assert(rest.len() == 0);
    assert(strip_repeated_prefix(rest, cmd) == rest);
    assert(strip_repeated_prefix(cmd, cmd) == rest);
    lemma_trim_of_trimmed(rest);
}

/// The build command followed by a blank and an argument has that argument,
/// and starts a build unless the argument is a help flag.
pub proof fn lemma_build_command_with_argument(arg: Seq<char>)
    requires
        arg.len() > 0,
        !is_space(arg[0]),
        !is_space(arg.last()),
    ensures
        build_argument(build_cmd().push(' ') + arg) == arg,
        start_of_build(build_cmd().push(' ') + arg) <==> arg != "--help"@ && arg != "-h"@,
{
    reveal_strlit("please build");
    let cmd = build_cmd();
    let line = cmd.push(' ') + arg;
    assert(line[0] == 'p');
    assert(line.last() == arg.last());
    lemma_trim_of_trimmed(line);
    assert(line.subrange(0, cmd.len() as int) =~= cmd);
    assert(starts_with(line, cmd));
    let rest = line.skip(cmd.len() as int);
    assert(rest =~= seq![' '] + arg);
    assert(!starts_with(rest, cmd)) by {
        if starts_with(rest, cmd) {
            assert(rest.subrange(0, cmd.len() as int)[0] == cmd[0]);
        }
    }
    assert(strip_repeated_prefix(rest, cmd) == rest);
    assert(strip_repeated_prefix(line, cmd) == rest);
    assert(rest.skip(1) =~= arg);
    assert(is_space(rest[0]));
    assert(trim_start_by(arg, Strip::Whitespace) == arg);
    assert(trim_start_by(rest, Strip::Whitespace) == arg);
    assert(trim_end_by(arg, Strip::Whitespace) == arg);
}

} // verus!
