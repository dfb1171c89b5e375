//! Scripts, and the session in which one is built.

use vstd::prelude::*;
use crate::config::{Config, join_path, join_path_exec};
use crate::error::ErrorKind;
use crate::history_parser::{get_parser, HistoryParser, script_lines, line_texts};
use crate::text::{
    append_chars, chars_of, string_of, ends_with, ends_with_exec, join, join_from_exec, same_text, texts,
};

verus! {

/// The extension of a script file.
pub open spec fn extension() -> Seq<char> {
    ".sh"@
}

/// The position of the last `c` in `s`, or -1 where `s` holds none.
pub open spec fn last_index_of(s: Seq<char>, c: char) -> int
    decreases s.len(),
{
    if s.len() == 0 {
        -1
    } else if s.last() == c {
        s.len() - 1
    } else {
        last_index_of(s.drop_last(), c)
    }
}

/// The last component of `path`: what follows its last `/`.
pub open spec fn file_name(path: Seq<char>) -> Seq<char> {
    path.skip(last_index_of(path, '/') + 1)
}

/// The file name `name` without its extension: what stands before its last
/// `.`, or all of `name` where it holds no `.` or only begins with one.
pub open spec fn stem(name: Seq<char>) -> Seq<char> {
    let dot = last_index_of(name, '.');
    if dot <= 0 {
        name
    } else {
        name.take(dot)
    }
}

/// The file name of the script called `name`: `name` itself where it already
/// carries the extension, else `name` with the extension added.
pub open spec fn script_file(name: Seq<char>) -> Seq<char> {
    if ends_with(name, extension()) {
        name
    } else {
        name + extension()
    }
}

/// A text that holds no `c` has no last `c`.
pub proof fn lemma_last_index_absent(s: Seq<char>, c: char)
    requires
        forall|i: int| 0 <= i < s.len() ==> s[i] != c,
    ensures
        last_index_of(s, c) == -1,
    decreases s.len(),
{
    if s.len() > 0 {
        lemma_last_index_absent(s.drop_last(), c);
    }
}

/// The last `c` of two texts put together is the last `c` of the second,
/// or else that of the first.
pub proof fn lemma_last_index_append(a: Seq<char>, b: Seq<char>, c: char)
    ensures
        last_index_of(a + b, c) == if last_index_of(b, c) >= 0 {
            a.len() + last_index_of(b, c)
        } else {
            last_index_of(a, c)
        },
    decreases b.len(),
{
    if b.len() == 0 {
        assert(a + b =~= a);
    } else {
        assert((a + b).drop_last() =~= a + b.drop_last());
        if b.last() != c {
            lemma_last_index_append(a, b.drop_last(), c);
        }
    }
}

/// The extension is a `.` followed by two letters.
pub proof fn lemma_extension()
    ensures
        extension().len() == 3,
        last_index_of(extension(), '.') == 0,
        forall|i: int| 0 <= i < extension().len() ==> extension()[i] != '/',
{
    reveal_strlit(".sh");
    let ext = extension();
    let two = ext.drop_last();
    let one = two.drop_last();
    assert(ext.last() == 'h');
    assert(two.last() == 's');
    assert(one.last() == '.');
    assert(last_index_of(one, '.') == 0);
    assert(last_index_of(two, '.') == 0);
}

/// A file name without `/` is the last component of its path in any
/// directory.
pub proof fn lemma_file_name_of_join(dir: Seq<char>, file: Seq<char>)
    requires
        forall|i: int| 0 <= i < file.len() ==> file[i] != '/',
    ensures
        file_name(join_path(dir, file)) == file,
{
    let path = join_path(dir, file);
    lemma_last_index_absent(file, '/');
    if dir.len() == 0 || dir.last() == '/' {
        lemma_last_index_append(dir, file, '/');
        assert(path.skip(dir.len() as int) =~= file);
    } else {
        lemma_last_index_append(dir.push('/'), file, '/');
        assert(path.skip(dir.len() as int + 1) =~= file);
    }
}

/// A non-empty name with the extension added has that name as its stem.
pub proof fn lemma_stem_with_extension(base: Seq<char>)
    requires
        base.len() > 0,
    ensures
        stem(base + extension()) == base,
{
    lemma_extension();
    lemma_last_index_append(base, extension(), '.');
    assert((base + extension()).take(base.len() as int) =~= base);
}

/// A script made from a name without `/` is called by that name, less the
/// extension where the name carried it.
pub proof fn lemma_script_name_of_name(dir: Seq<char>, name: Seq<char>)
    requires
        name.len() > 0,
        forall|i: int| 0 <= i < name.len() ==> name[i] != '/',
    ensures
        !ends_with(name, extension()) ==> stem(
            file_name(join_path(dir, script_file(name))),
        ) == name,
        ends_with(name, extension()) && name.len() > extension().len() ==> stem(
            file_name(join_path(dir, script_file(name))),
        ) == name.take(name.len() - extension().len()),
{
    lemma_extension();
    let ext = extension();
    let file = script_file(name);
    lemma_file_name_of_join(dir, file);
    if !ends_with(name, ext) {
        lemma_stem_with_extension(name);
    } else if name.len() > ext.len() {
        let base = name.take(name.len() - 3);
        assert(name =~= base + ext);
        lemma_stem_with_extension(base);
    }
}

/// The position after the last `c` among the first `end` characters of `s`.
fn after_last(s: &Vec<char>, end: usize, c: char) -> (pos: usize)
    requires
        end <= s.len(),
    ensures
        pos == last_index_of(s@.take(end as int), c) + 1,
        pos <= end,
{
    let mut i: usize = end;
    while i > 0 && s[i - 1] != c
        invariant
            i <= end <= s.len(),
            last_index_of(s@.take(end as int), c) == last_index_of(s@.take(i as int), c),
        decreases i,
    {
        assert(s@.take(i as int).drop_last() =~= s@.take(i - 1));
        i -= 1;
    }
    i
}

/// A script file in the scripts directory, known by its full path.
pub struct Script(String);

impl View for Script {
    type V = Seq<char>;

    /// The full path of the script file.
    closed spec fn view(&self) -> Seq<char> {
        self.0@
    }
}

impl Script {
    /// The script called `s` in the scripts directory of `config`. An empty
    /// name is refused; a name may be given with or without the extension.
    pub fn from_name(s: &str, config: &Config) -> (res: Result<Script, ErrorKind>)
        ensures
            match res {
                Ok(script) => s@.len() > 0 && script@ == join_path(
                    config.scripts_dir@,
                    script_file(s@),
                ),
                Err(e) => s@.len() == 0 && e == ErrorKind::InvalidInput,
            },
    {
        let mut file = chars_of(s);
        if file.len() == 0 {
            return Err(ErrorKind::InvalidInput);
        }
        let ext = chars_of(".sh");
        if !ends_with_exec(&file, &ext) {
            append_chars(&mut file, &ext);
        }
        let file_text = string_of(&file);
        let path = join_path_exec(config.scripts_dir.as_str(), file_text.as_str());
        Ok(Script(path))
    }

    /// The full path of the script file.
    pub fn path(&self) -> (p: &str)
        ensures
            p@ == self@,
    {
        self.0.as_str()
    }

    /// The name of the script: the last component of its path, without the
    /// extension.
    pub fn script_name(&self) -> (name: &str)
        ensures
            name@ == stem(file_name(self@)),
    {
        let path = chars_of(self.0.as_str());
        let n = path.len();
        assert(path@.take(n as int) =~= path@);
        let from = after_last(&path, n, '/');
        let mut to: usize = n;
        let mut dot: usize = n;
        while dot > from && path[dot - 1] != '.'
            invariant
                from <= dot <= n,
                n == path.len(),
                last_index_of(path@.skip(from as int), '.') == last_index_of(
                    path@.subrange(from as int, dot as int),
                    '.',
                ),
            decreases dot,
        {
            assert(path@.subrange(from as int, dot as int).drop_last() =~= path@.subrange(
                from as int,
                dot - 1,
            ));
            dot -= 1;
        }
        if dot - from > 1 {
            to = dot - 1;
        }
        proof {
            let name = path@.skip(from as int);
            assert(name.take(to - from) =~= path@.subrange(from as int, to as int));
            assert(name.take(n - from) =~= name);
            assert(path@.subrange(from as int, n as int) =~= name);
        }
        self.0.as_str().substring_char(from, to)
    }

    /// The name of the script, as an owned string.
    pub fn to_string(&self) -> (name: String)
        ensures
            name@ == stem(file_name(self@)),
    {
        let chars = chars_of(self.script_name());
        string_of(&chars)
    }
}

/// The scripts, in order, that the non-empty names among `names` stand for in
/// the directory `dir`.
pub open spec fn script_paths(dir: Seq<char>, names: Seq<Seq<char>>) -> Seq<Seq<char>>
    decreases names.len(),
{
    if names.len() == 0 {
        Seq::empty()
    } else if names.last().len() == 0 {
        script_paths(dir, names.drop_last())
    } else {
        script_paths(dir, names.drop_last()).push(join_path(dir, script_file(names.last())))
    }
}

/// The paths of the scripts in `v`.
pub open spec fn paths_of(v: Seq<Script>) -> Seq<Seq<char>> {
    Seq::new(v.len(), |i: int| v[i]@)
}

/// The scripts that the file names `names`, found in the scripts directory
/// of `config`, stand for. Names that are no script names are passed over.
pub fn get_scripts(config: &Config, names: &Vec<String>) -> (scripts: Vec<Script>)
    ensures
        paths_of(scripts@) == script_paths(config.scripts_dir@, line_texts(names@)),
{
    let mut scripts: Vec<Script> = Vec::new();
    let ghost all = line_texts(names@);
    let mut i: usize = 0;
    assert(paths_of(scripts@) =~= script_paths(config.scripts_dir@, all.take(0)));
    while i < names.len()
        invariant
            i <= names.len(),
            all == line_texts(names@),
            paths_of(scripts@) == script_paths(config.scripts_dir@, all.take(i as int)),
        decreases names.len() - i,
    {
        proof {
            assert(all.take(i + 1).drop_last() =~= all.take(i as int));
            assert(all.take(i + 1).last() == names@[i as int]@);
        }
        let ghost before = paths_of(scripts@);
        match Script::from_name(names[i].as_str(), config) {
            Ok(script) => {
                scripts.push(script);
                assert(paths_of(scripts@) =~= before.push(scripts@.last()@));
            },
            Err(_) => {},
        }
        i += 1;
    }
    assert(all.take(i as int) =~= all);
    scripts
}

/// One prompt recorded during a build.
#[derive(Debug)]
pub struct Variable {
    /// The name of the shell variable that receives the answer.
    pub value: String,
    /// The shell snippet that uses the answer.
    pub expr: String,
}

/// What a `Variable` holds, as character sequences.
pub struct VariableView {
    pub value: Seq<char>,
    pub expr: Seq<char>,
}

impl View for Variable {
    type V = VariableView;

    open spec fn view(&self) -> VariableView {
        VariableView { value: self.value@, expr: self.expr@ }
    }
}

/// The views of the variables in `vars`, in order.
pub open spec fn variable_views(vars: Seq<Variable>) -> Seq<VariableView> {
    Seq::new(vars.len(), |i: int| vars[i]@)
}

/// The record of a build in progress: what is kept between invocations.
#[derive(Debug)]
pub struct BuildFile {
    /// The name of the script being built, without the extension.
    pub script_name: String,
    /// The prompts recorded so far, oldest first.
    pub variables: Vec<Variable>,
}

impl BuildFile {
    /// The record of a build of `script_name` that has no prompts yet.
    pub fn new(script_name: &str) -> (file: BuildFile)
        ensures
            file.script_name@ == script_name@,
            file.variables@.len() == 0,
    {
        BuildFile { script_name: String::from_str(script_name), variables: Vec::new() }
    }
}

/// A script file to be written: where, and with what content.
#[derive(Debug)]
pub struct BuiltScript {
    /// The full path of the script file.
    pub path: String,
    /// The text of the script.
    pub content: String,
}

/// The text of a script with the lines `lines`.
pub open spec fn script_text(lines: Seq<Seq<char>>) -> Seq<char> {
    join(lines, '\n')
}

/// The text of the script that `history` and `vars` give, or `None` where
/// they do not fit together.
pub open spec fn compiled_text(history: Seq<char>, vars: Seq<VariableView>) -> Option<
    Seq<char>,
> {
    match script_lines(history, vars) {
        Some(lines) => Some(script_text(lines)),
        None => None,
    }
}

/// A build in progress, together with the configuration it runs under.
pub struct ScriptBuilder {
    build_file: BuildFile,
    config: Config,
}

impl ScriptBuilder {
    /// The record of this build.
    pub closed spec fn record(&self) -> BuildFile {
        self.build_file
    }

    /// The configuration of this build.
    pub closed spec fn settings(&self) -> Config {
        self.config
    }

    /// The name of the script being built.
    pub open spec fn name(&self) -> Seq<char> {
        self.record().script_name@
    }

    /// The prompts recorded so far, oldest first.
    pub open spec fn variables(&self) -> Seq<VariableView> {
        variable_views(self.record().variables@)
    }

    /// The name of the script being built carries no script extension.
    /// Every builder that this library hands out is well formed.
    pub open spec fn well_formed(&self) -> bool {
        !ends_with(self.name(), extension())
    }

    /// A fresh build of `script_name` under `config`, with no prompts yet.
    /// A name that carries the script extension is refused.
    pub fn build_new(script_name: &str, config: Config) -> (res: Result<ScriptBuilder, ErrorKind>)
        ensures
            match res {
                Ok(builder) => {
                    &&& builder.well_formed()
                    &&& builder.name() == script_name@
                    &&& builder.variables().len() == 0
                    &&& builder.settings() == config
                },
                Err(e) => e == ErrorKind::InvalidInput && ends_with(script_name@, extension()),
            },
    {
        let name = chars_of(script_name);
        let ext = chars_of(".sh");
        if ends_with_exec(&name, &ext) {
            return Err(ErrorKind::InvalidInput);
        }
        Ok(ScriptBuilder { build_file: BuildFile::new(script_name), config })
    }

    /// The build whose record `saved` was found under `config`. Fails with
    /// a state conflict where none was found, and with invalid input where
    /// the recorded name carries the script extension.
    pub fn load_current(saved: Option<BuildFile>, config: Config) -> (res: Result<
        ScriptBuilder,
        ErrorKind,
    >)
        ensures
            match res {
                Ok(builder) => {
                    &&& saved == Some(builder.record())
                    &&& builder.well_formed()
                    &&& builder.settings() == config
                },
                Err(e) => match saved {
                    None => e == ErrorKind::StateConflict,
                    Some(file) => e == ErrorKind::InvalidInput && ends_with(
                        file.script_name@,
                        extension(),
                    ),
                },
            },
    {
        match saved {
            None => Err(ErrorKind::StateConflict),
            Some(build_file) => {
                let name = chars_of(build_file.script_name.as_str());
                let ext = chars_of(".sh");
                if ends_with_exec(&name, &ext) {
                    Err(ErrorKind::InvalidInput)
                } else {
                    Ok(ScriptBuilder { build_file, config })
                }
            },
        }
    }

    /// Starts this build: gives the path of the file in which its record is
    /// to be created. `active` says whether that file exists already; then a
    /// build is in progress and this one is refused.
    pub fn start_build(&self, active: bool) -> (res: Result<String, ErrorKind>)
        ensures
            match res {
                Ok(path) => !active && path@ == join_path(
                    self.settings().state_dir@,
                    "build.json"@,
                ),
                Err(e) => active && e == ErrorKind::StateConflict,
            },
    {
        if active {
            return Err(ErrorKind::StateConflict);
        }
        Ok(join_path_exec(self.config.state_dir.as_str(), "build.json"))
    }

    /// The lines of the script that `history` gives with the prompts of this
    /// build.
    pub fn parse_lines(&self, history: String) -> (res: Result<Vec<String>, ErrorKind>)
        ensures
            match res {
                Ok(out) => script_lines(history@, self.variables()) == Some(line_texts(out@)),
                Err(e) => e == ErrorKind::ParseInconsistency && script_lines(
                    history@,
                    self.variables(),
                ) is None,
            },
    {
        let parser = get_parser();
        parser.parse_history(history, &self.build_file.variables)
    }

    /// The text of the script that `history` gives with the prompts of this
    /// build: its lines with a line feed between neighbours.
    pub fn display_script(&self, history: String) -> (res: Result<String, ErrorKind>)
        ensures
            match res {
                Ok(content) => compiled_text(history@, self.variables()) == Some(content@),
                Err(e) => e == ErrorKind::ParseInconsistency && compiled_text(
                    history@,
                    self.variables(),
                ) is None,
            },
    {
        match self.parse_lines(history) {
            Ok(out) => Ok(join_lines(&out)),
            Err(e) => Err(e),
        }
    }

    /// Finishes this build: gives the script file to write, its path named
    /// after the script and its content compiled from `history`.
    pub fn build(self, history: String) -> (res: Result<BuiltScript, ErrorKind>)
        ensures
            match res {
                Ok(built) => {
                    &&& self.well_formed()
                    &&& built.path@ == join_path(
                        self.settings().scripts_dir@,
                        self.name() + extension(),
                    )
                    &&& compiled_text(history@, self.variables()) == Some(built.content@)
                },
                Err(e) => if !self.well_formed() {
                    e == ErrorKind::InvalidInput
                } else {
                    e == ErrorKind::ParseInconsistency && compiled_text(
                        history@,
                        self.variables(),
                    ) is None
                },
            },
    {
        let mut file = chars_of(self.build_file.script_name.as_str());
        let ext = chars_of(".sh");
        if ends_with_exec(&file, &ext) {
            return Err(ErrorKind::InvalidInput);
        }
        append_chars(&mut file, &ext);
        let file_text = string_of(&file);
        let path = join_path_exec(self.config.scripts_dir.as_str(), file_text.as_str());
        match self.display_script(history) {
            Ok(content) => Ok(BuiltScript { path, content }),
            Err(e) => Err(e),
        }
    }

    /// Discards this build: gives the path of the build file to remove.
    /// `exists` says whether that file is there; without it no build is
    /// active and the request is refused.
    pub fn delete_build(&self, exists: bool) -> (res: Result<String, ErrorKind>)
        ensures
            match res {
                Ok(path) => exists && path@ == self.settings().build_file_path@,
                Err(e) => !exists && e == ErrorKind::StateConflict,
            },
    {
        if !exists {
            return Err(ErrorKind::StateConflict);
        }
        Ok(self.config.build_file_path.clone())
    }

    /// Records one more prompt, after those recorded before.
    pub fn add_var(&mut self, var_name: String, var_expr: String)
        ensures
            final(self).variables() == old(self).variables().push(
                VariableView { value: var_name@, expr: var_expr@ },
            ),
            final(self).name() == old(self).name(),
            final(self).settings() == old(self).settings(),
            final(self).well_formed() == old(self).well_formed(),
    {
        let ghost before = variable_views(self.build_file.variables@);
        self.build_file.variables.push(Variable { value: var_name, expr: var_expr });
        assert(variable_views(self.build_file.variables@) =~= before.push(
            VariableView { value: var_name@, expr: var_expr@ },
        ));
    }

    /// Saves this build over what was saved before: gives the path of the
    /// build file and the record to write there.
    pub fn save_replace(&self) -> (res: (String, &BuildFile))
        ensures
            res.0@ == self.settings().build_file_path@,
            *res.1 == self.record(),
    {
        (self.config.build_file_path.clone(), &self.build_file)
    }

    /// The name of the script being built.
    pub fn get_script_name(&self) -> (name: String)
        ensures
            name@ == self.name(),
    {
        self.build_file.script_name.clone()
    }

    /// The record of this build.
    pub fn build_file(&self) -> (file: &BuildFile)
        ensures
            *file == self.record(),
    {
        &self.build_file
    }
}

/// The text made of `lines` with a line feed between neighbours.
pub fn join_lines(lines: &Vec<String>) -> (out: String)
    ensures
        out@ == script_text(line_texts(lines@)),
{
    let mut pieces: Vec<Vec<char>> = Vec::new();
    let mut i: usize = 0;
    while i < lines.len()
        invariant
            i <= lines.len(),
            pieces.len() == i,
            forall|m: int| 0 <= m < i ==> pieces@[m]@ == lines@[m]@,
        decreases lines.len() - i,
    {
        pieces.push(chars_of(lines[i].as_str()));
        i += 1;
    }
    assert(texts(pieces@) =~= line_texts(lines@));
    assert(texts(pieces@).skip(0) =~= texts(pieces@));
    let joined = join_from_exec(&pieces, 0, '\n');
    string_of(&joined)
}

/// Where the shell keeps its history: `histfile` where it is set; else the
/// well-known file of the shell `shell` in the home directory `home`.
pub open spec fn history_location(
    histfile: Option<Seq<char>>,
    shell: Option<Seq<char>>,
    home: Option<Seq<char>>,
) -> Option<Seq<char>> {
    match histfile {
        Some(path) => Some(path),
        None => match (shell, home) {
            (Some(sh), Some(dir)) => if sh == "/bin/zsh"@ {
                Some(join_path(dir, ".zsh_history"@))
            } else if sh == "/bin/bash"@ {
                Some(join_path(dir, ".bash_history"@))
            } else {
                None
            },
            _ => None,
        },
    }
}

/// The text of `s`, where there is one.
pub open spec fn text_of(s: Option<String>) -> Option<Seq<char>> {
    match s {
        Some(text) => Some(text@),
        None => None,
    }
}

/// `res` is what is owed where the history is to be found at `location`.
pub open spec fn located(res: Result<String, ErrorKind>, location: Option<Seq<char>>) -> bool {
    match res {
        Ok(path) => location == Some(path@),
        Err(e) => e == ErrorKind::MissingResource && location is None,
    }
}

/// The path of the shell's history file, from the value of `HISTFILE`, the
/// value of `SHELL` and the home directory, each where it is known. Fails
/// where no location follows from them.
pub fn get_histfile(histfile: Option<String>, shell: Option<String>, home: Option<String>) -> (res:
    Result<String, ErrorKind>)
    ensures
        located(res, history_location(text_of(histfile), text_of(shell), text_of(home))),
{
    if let Some(path) = histfile {
        return Ok(path);
    }
    match (shell, home) {
        (Some(sh), Some(dir)) => {
            let sh_chars = chars_of(sh.as_str());
            let zsh = chars_of("/bin/zsh");
            let bash = chars_of("/bin/bash");
            if same_text(&sh_chars, &zsh) {
                Ok(join_path_exec(dir.as_str(), ".zsh_history"))
            } else if same_text(&sh_chars, &bash) {
                Ok(join_path_exec(dir.as_str(), ".bash_history"))
            } else {
                Err(ErrorKind::MissingResource)
            }
        },
        _ => Err(ErrorKind::MissingResource),
    }
}

/// `dirs::home_dir`: the home directory of the current user, as the platform
/// and the environment give it, where they give one and its path is valid
/// UTF-8. Nothing is claimed of which directory that is.
#[verifier::external_body]
fn home_directory() -> (dir: Option<String>) {
    match dirs::home_dir() {
        Some(path) => path.into_os_string().into_string().ok(),
        None => None,
    }
}

/// The path of the shell's history file, from the value of `HISTFILE` and
/// the value of `SHELL`, each where it is set; the home directory is asked
/// for only where `HISTFILE` is not set.
pub fn history_file(histfile: Option<String>, shell: Option<String>) -> (res: Result<
    String,
    ErrorKind,
>)
    ensures
        histfile is Some ==> res is Ok && res->Ok_0@ == histfile->0@,
        exists|home: Option<Seq<char>>|
            located(res, #[trigger] history_location(text_of(histfile), text_of(shell), home)),
{
    let home = if histfile.is_some() {
        None
    } else {
        home_directory()
    };
    let res = get_histfile(histfile, shell, home);
    assert(located(res, history_location(text_of(histfile), text_of(shell), text_of(home))));
    res
}

} // verus!
