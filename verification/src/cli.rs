//! What the command line asks for.
use crate::lists::copy_opt;
use crate::text;
use crate::text::{after_prefix, concat2, concat3, has_prefix, same_text, to_chars, trim_starts};
use vstd::prelude::*;

verus! {

// ---------------------------------------------------------------------------
// Types
// ---------------------------------------------------------------------------

#[derive(Debug, Clone, Copy, PartialEq, Eq, Structural)]
pub enum OutputFormat {
    Text,
    Json,
}

#[derive(Debug)]
pub struct GlobalOptions {
    pub format: OutputFormat,
    pub profile: Option<String>,
}

/// How much an import from the command line tells.
#[derive(Debug, Clone, Copy, PartialEq, Eq, Structural)]
pub enum CliVerbosity {
    Quiet,
    Normal,
    Verbose,
    Debug,
}

#[derive(Debug, Clone, Copy)]
pub struct CliImportOptions {
    pub deploy: bool,
    pub verbosity: CliVerbosity,
}

#[derive(Debug)]
pub enum CliAction {
    Ui,
    Import { paths: Vec<String>, options: CliImportOptions },
    Command { command: CliCommand, format: OutputFormat, profile: Option<String> },
}

#[derive(Debug)]
pub enum CliCommand {
    ModsList(ModsListOptions),
    ProfilesList,
    DepsList,
    DepsMissing,
    DepsDebug(String),
    Paths,
    Help,
    Version,
}

#[derive(Debug)]
pub struct ModsListOptions {
    pub sort: ModSortKey,
    pub reverse: bool,
    pub filter: Option<String>,
}

#[derive(Debug, Clone, Copy, PartialEq, Eq, Structural)]
pub enum ModSortKey {
    Order,
    Name,
    Created,
    Added,
    Kind,
}

/// Why a command is refused.
#[derive(Debug)]
pub enum CliError {
    DebugNeedsMod,
    UnknownDeps(String),
    SortNeedsValue,
    FilterNeedsValue,
    UnknownSort(String),
    UnknownProfile(String),
    NoActiveProfile,
}

/// A refusal, in mathematical values.
pub enum ErrorView {
    DebugNeedsMod,
    UnknownDeps(Seq<char>),
    SortNeedsValue,
    FilterNeedsValue,
    UnknownSort(Seq<char>),
    UnknownProfile(Seq<char>),
    NoActiveProfile,
}

impl CliError {
    pub open spec fn shown(self) -> ErrorView {
        match self {
            CliError::DebugNeedsMod => ErrorView::DebugNeedsMod,
            CliError::UnknownDeps(s) => ErrorView::UnknownDeps(s@),
            CliError::SortNeedsValue => ErrorView::SortNeedsValue,
            CliError::FilterNeedsValue => ErrorView::FilterNeedsValue,
            CliError::UnknownSort(s) => ErrorView::UnknownSort(s@),
            CliError::UnknownProfile(s) => ErrorView::UnknownProfile(s@),
            CliError::NoActiveProfile => ErrorView::NoActiveProfile,
        }
    }

    /// What is shown of a refusal.
    pub fn message(&self) -> (r: String)
        ensures
            r@ == match self.shown() {
                ErrorView::DebugNeedsMod => "deps debug requires a mod id or name"@,
                ErrorView::UnknownDeps(s) => "Unknown deps command: "@ + s
                    + " (use 'list', 'missing', or 'debug')"@,
                ErrorView::SortNeedsValue => "--sort requires a value"@,
                ErrorView::FilterNeedsValue => "--filter requires a value"@,
                ErrorView::UnknownSort(s) => "Unknown sort key: "@ + s,
                ErrorView::UnknownProfile(s) => "Unknown profile: "@ + s,
                ErrorView::NoActiveProfile => "No active profile"@,
            },
    {
        match self {
            CliError::DebugNeedsMod => "deps debug requires a mod id or name".to_owned(),
            CliError::UnknownDeps(s) => concat3(
                "Unknown deps command: ",
                s.as_str(),
                " (use 'list', 'missing', or 'debug')",
            ),
            CliError::SortNeedsValue => "--sort requires a value".to_owned(),
            CliError::FilterNeedsValue => "--filter requires a value".to_owned(),
            CliError::UnknownSort(s) => concat2("Unknown sort key: ", s.as_str()),
            CliError::UnknownProfile(s) => concat2("Unknown profile: ", s.as_str()),
            CliError::NoActiveProfile => "No active profile".to_owned(),
        }
    }
}

#[verifier::ext_equal]
pub struct ListView {
    pub sort: ModSortKey,
    pub reverse: bool,
    pub filter: Option<Seq<char>>,
}

impl ModsListOptions {
    pub open spec fn shown(self) -> ListView {
        ListView { sort: self.sort, reverse: self.reverse, filter: text::text_opt(self.filter) }
    }
}

pub enum CommandView {
    ModsList(ListView),
    ProfilesList,
    DepsList,
    DepsMissing,
    DepsDebug(Seq<char>),
    Paths,
    Help,
    Version,
}

impl CliCommand {
    pub open spec fn shown(self) -> CommandView {
        match self {
            CliCommand::ModsList(o) => CommandView::ModsList(o.shown()),
            CliCommand::ProfilesList => CommandView::ProfilesList,
            CliCommand::DepsList => CommandView::DepsList,
            CliCommand::DepsMissing => CommandView::DepsMissing,
            CliCommand::DepsDebug(q) => CommandView::DepsDebug(q@),
            CliCommand::Paths => CommandView::Paths,
            CliCommand::Help => CommandView::Help,
            CliCommand::Version => CommandView::Version,
        }
    }
}

pub enum ActionView {
    Ui,
    Import { paths: Seq<Seq<char>>, deploy: bool, verbosity: CliVerbosity },
    Command { command: CommandView, format: OutputFormat, profile: Option<Seq<char>> },
}

impl CliAction {
    pub open spec fn shown(self) -> ActionView {
        match self {
            CliAction::Ui => ActionView::Ui,
            CliAction::Import { paths, options } => ActionView::Import {
                paths: text::texts(paths@),
                deploy: options.deploy,
                verbosity: options.verbosity,
            },
            CliAction::Command { command, format, profile } => ActionView::Command {
                command: command.shown(),
                format,
                profile: text::text_opt(profile),
            },
        }
    }
}

// ---------------------------------------------------------------------------
// Options for all commands
// ---------------------------------------------------------------------------

pub open spec fn format_named(value: Seq<char>) -> Option<OutputFormat> {
    if value == "json"@ {
        Some(OutputFormat::Json)
    } else if value == "text"@ {
        Some(OutputFormat::Text)
    } else {
        None
    }
}

impl OutputFormat {
    pub fn parse(value: &str) -> (r: Option<Self>)
        ensures
            r == format_named(value@),
    {
        if same_text(value, "json") {
            Some(OutputFormat::Json)
        } else if same_text(value, "text") {
            Some(OutputFormat::Text)
        } else {
            None
        }
    }
}

#[verifier::ext_equal]
pub struct Globals {
    pub format: OutputFormat,
    pub profile: Option<Seq<char>>,
    pub tokens: Seq<Seq<char>>,
}

pub open spec fn with_format(g: Globals, value: Seq<char>) -> Globals {
    match format_named(value) {
        Some(f) => Globals { format: f, ..g },
        None => g,
    }
}

/// What is read from the arguments from `i` on, after `g`.
pub open spec fn globals_from(args: Seq<Seq<char>>, i: int, g: Globals) -> Globals
    decreases args.len() - i,
{
    if i < 0 || i >= args.len() {
        g
    } else {
        let a = args[i];
        match text::after(a, "--format="@) {
            Some(v) => globals_from(args, i + 1, with_format(g, v)),
            None => if a == "--format"@ {
                if i + 1 < args.len() {
                    globals_from(args, i + 2, with_format(g, args[i + 1]))
                } else {
                    g
                }
            } else {
                match text::after(a, "--profile="@) {
                    Some(v) => globals_from(args, i + 1, Globals { profile: Some(v), ..g }),
                    None => if a == "--profile"@ {
                        if i + 1 < args.len() {
                            globals_from(
                                args,
                                i + 2,
                                Globals { profile: Some(args[i + 1]), ..g },
                            )
                        } else {
                            g
                        }
                    } else {
                        globals_from(args, i + 1, Globals { tokens: g.tokens.push(a), ..g })
                    },
                }
            },
        }
    }
}

pub open spec fn no_globals() -> Globals {
    Globals { format: OutputFormat::Text, profile: None, tokens: Seq::empty() }
}

pub open spec fn globals(args: Seq<Seq<char>>) -> Globals {
    globals_from(args, 0, no_globals())
}

pub open spec fn read_globals(o: GlobalOptions, tokens: Seq<String>) -> Globals {
    Globals {
        format: o.format,
        profile: text::text_opt(o.profile),
        tokens: text::texts(tokens),
    }
}

/// The options that every command takes, and what is left.
pub fn parse_global_options(args: &[String]) -> (r: (GlobalOptions, Vec<String>))
    ensures
        read_globals(r.0, r.1@) == globals(text::texts(args@)),
{
    let ghost all = text::texts(args@);
    let mut o = GlobalOptions { format: OutputFormat::Text, profile: None };
    let mut tokens: Vec<String> = Vec::new();
    let mut i: usize = 0;
    assert(read_globals(o, tokens@) =~= no_globals());
    while i < args.len()
        invariant
            i <= args.len(),
            all == text::texts(args@),
            globals_from(all, i as int, read_globals(o, tokens@)) == globals(all),
        decreases args.len() - i,
    {
        let a = args[i].as_str();
        let ghost now = read_globals(o, tokens@);
        assert(all[i as int] == a@);
        if let Some(v) = after_prefix(a, "--format=") {
            if let Some(f) = OutputFormat::parse(v.as_str()) {
                o.format = f;
            }
            assert(read_globals(o, tokens@) =~= with_format(now, v@));
            i = i + 1;
        } else if same_text(a, "--format") {
            i = i + 1;
            if i < args.len() {
                assert(all[i as int] == args@[i as int]@);
                if let Some(f) = OutputFormat::parse(args[i].as_str()) {
                    o.format = f;
                }
                assert(read_globals(o, tokens@) =~= with_format(now, args@[i as int]@));
                i = i + 1;
            }
        } else if let Some(v) = after_prefix(a, "--profile=") {
            o.profile = Some(v);
            i = i + 1;
        } else if same_text(a, "--profile") {
            i = i + 1;
            if i < args.len() {
                assert(all[i as int] == args@[i as int]@);
                o.profile = Some(args[i].clone());
                i = i + 1;
            }
        } else {
            let token = args[i].clone();
            proof {
                text::lemma_texts_push(tokens@, token);
            }
            tokens.push(token);
            i = i + 1;
        }
    }
    (o, tokens)
}

// ---------------------------------------------------------------------------
// Commands
// ---------------------------------------------------------------------------

pub open spec fn sort_named(value: Seq<char>) -> Option<ModSortKey> {
    if value == "order"@ {
        Some(ModSortKey::Order)
    } else if value == "name"@ {
        Some(ModSortKey::Name)
    } else if value == "created"@ {
        Some(ModSortKey::Created)
    } else if value == "added"@ {
        Some(ModSortKey::Added)
    } else if value == "kind"@ {
        Some(ModSortKey::Kind)
    } else {
        None
    }
}

pub fn parse_sort_key(value: &str) -> (r: Result<ModSortKey, CliError>)
    ensures
        match r {
            Ok(k) => sort_named(value@) == Some(k),
            Err(e) => sort_named(value@) is None && e.shown() == ErrorView::UnknownSort(value@),
        },
{
    if same_text(value, "order") {
        Ok(ModSortKey::Order)
    } else if same_text(value, "name") {
        Ok(ModSortKey::Name)
    } else if same_text(value, "created") {
        Ok(ModSortKey::Created)
    } else if same_text(value, "added") {
        Ok(ModSortKey::Added)
    } else if same_text(value, "kind") {
        Ok(ModSortKey::Kind)
    } else {
        Err(CliError::UnknownSort(value.to_owned()))
    }
}

/// The options of the list of mods, read from `i` on, after `o`.
pub open spec fn list_from(args: Seq<Seq<char>>, i: int, o: ListView) -> Result<
    ListView,
    ErrorView,
>
    decreases args.len() - i,
{
    if i < 0 || i >= args.len() {
        Ok(o)
    } else {
        let a = args[i];
        if a == "list"@ {
            list_from(args, i + 1, o)
        } else if a == "--sort"@ {
            if i + 1 < args.len() {
                match sort_named(args[i + 1]) {
                    Some(k) => list_from(args, i + 2, ListView { sort: k, ..o }),
                    None => Err(ErrorView::UnknownSort(args[i + 1])),
                }
            } else {
                Err(ErrorView::SortNeedsValue)
            }
        } else if text::starts_with(a, "--sort="@) {
            match sort_named(text::without_starts(a, "--sort="@)) {
                Some(k) => list_from(args, i + 1, ListView { sort: k, ..o }),
                None => Err(ErrorView::UnknownSort(text::without_starts(a, "--sort="@))),
            }
        } else if a == "--reverse"@ || a == "-r"@ {
            list_from(args, i + 1, ListView { reverse: true, ..o })
        } else if a == "--filter"@ {
            if i + 1 < args.len() {
                list_from(args, i + 2, ListView { filter: Some(args[i + 1]), ..o })
            } else {
                Err(ErrorView::FilterNeedsValue)
            }
        } else if text::starts_with(a, "--filter="@) {
            list_from(
                args,
                i + 1,
                ListView { filter: Some(text::without_starts(a, "--filter="@)), ..o },
            )
        } else {
            list_from(args, i + 1, o)
        }
    }
}

pub open spec fn plain_list() -> ListView {
    ListView { sort: ModSortKey::Order, reverse: false, filter: None }
}

fn parse_mods_list(args: &[String], start: usize) -> (r: Result<ModsListOptions, CliError>)
    requires
        start <= args.len(),
    ensures
        match r {
            Ok(o) => list_from(text::texts(args@), start as int, plain_list()) == Ok::<
                ListView,
                ErrorView,
            >(o.shown()),
            Err(e) => list_from(text::texts(args@), start as int, plain_list()) == Err::<
                ListView,
                ErrorView,
            >(e.shown()),
        },
{
    let ghost all = text::texts(args@);
    let ghost wanted = list_from(all, start as int, plain_list());
    let mut o = ModsListOptions { sort: ModSortKey::Order, reverse: false, filter: None };
    let mut i: usize = start;
    assert(o.shown() =~= plain_list());
    while i < args.len()
        invariant
            i <= args.len(),
            all == text::texts(args@),
            wanted == list_from(all, start as int, plain_list()),
            list_from(all, i as int, o.shown()) == wanted,
        decreases args.len() - i,
    {
        let a = args[i].as_str();
        assert(all[i as int] == a@);
        if same_text(a, "list") {
            i = i + 1;
        } else if same_text(a, "--sort") {
            if i + 1 < args.len() {
                assert(all[i + 1] == args@[i + 1]@);
                match parse_sort_key(args[i + 1].as_str()) {
                    Ok(k) => {
                        o.sort = k;
                    },
                    Err(e) => {
                        return Err(e);
                    },
                }
                i = i + 2;
            } else {
                return Err(CliError::SortNeedsValue);
            }
        } else if has_prefix(a, "--sort=") {
            let key = trim_starts(a, "--sort=");
            match parse_sort_key(key.as_str()) {
                Ok(k) => {
                    o.sort = k;
                },
                Err(e) => {
                    return Err(e);
                },
            }
            i = i + 1;
        } else if same_text(a, "--reverse") || same_text(a, "-r") {
            o.reverse = true;
            i = i + 1;
        } else if same_text(a, "--filter") {
            if i + 1 < args.len() {
                assert(all[i + 1] == args@[i + 1]@);
                o.filter = Some(args[i + 1].clone());
                i = i + 2;
            } else {
                return Err(CliError::FilterNeedsValue);
            }
        } else if has_prefix(a, "--filter=") {
            o.filter = Some(trim_starts(a, "--filter="));
            i = i + 1;
        } else {
            i = i + 1;
        }
    }
    Ok(o)
}

pub open spec fn command(g: Globals, c: CommandView) -> ActionView {
    ActionView::Command { command: c, format: g.format, profile: g.profile }
}

/// The command that the arguments name; none where the first names no command.
pub open spec fn subcommand(g: Globals) -> Result<Option<ActionView>, ErrorView> {
    let t = g.tokens;
    if t.len() == 0 {
        Ok(None)
    } else if t[0] == "mods"@ {
        match list_from(t, 1, plain_list()) {
            Ok(o) => Ok(Some(command(g, CommandView::ModsList(o)))),
            Err(e) => Err(e),
        }
    } else if t[0] == "profiles"@ {
        Ok(Some(command(g, CommandView::ProfilesList)))
    } else if t[0] == "deps"@ {
        if t.len() < 2 || t[1] == "missing"@ {
            Ok(Some(command(g, CommandView::DepsMissing)))
        } else if t[1] == "list"@ {
            Ok(Some(command(g, CommandView::DepsList)))
        } else if t[1] == "debug"@ {
            if t.len() > 2 {
                Ok(Some(command(g, CommandView::DepsDebug(t[2]))))
            } else {
                Err(ErrorView::DebugNeedsMod)
            }
        } else {
            Err(ErrorView::UnknownDeps(t[1]))
        }
    } else if t[0] == "paths"@ {
        Ok(Some(command(g, CommandView::Paths)))
    } else {
        Ok(None)
    }
}

pub open spec fn action_opt(a: Option<CliAction>) -> Option<ActionView> {
    match a {
        Some(x) => Some(x.shown()),
        None => None,
    }
}

fn make_command(command: CliCommand, o: &GlobalOptions) -> (r: CliAction)
    ensures
        r.shown() == (ActionView::Command {
            command: command.shown(),
            format: o.format,
            profile: text::text_opt(o.profile),
        }),
{
    CliAction::Command { command, format: o.format, profile: copy_opt(&o.profile) }
}

pub fn parse_subcommand(tokens: &[String], global: &GlobalOptions) -> (r: Result<
    Option<CliAction>,
    CliError,
>)
    ensures
        match r {
            Ok(a) => subcommand(read_globals(*global, tokens@)) == Ok::<
                Option<ActionView>,
                ErrorView,
            >(action_opt(a)),
            Err(e) => subcommand(read_globals(*global, tokens@)) == Err::<
                Option<ActionView>,
                ErrorView,
            >(e.shown()),
        },
{
    let ghost t = text::texts(tokens@);
    if tokens.len() == 0 {
        return Ok(None);
    }
    let head = tokens[0].as_str();
    assert(t[0] == head@);
    if same_text(head, "mods") {
        match parse_mods_list(tokens, 1) {
            Ok(o) => Ok(Some(make_command(CliCommand::ModsList(o), global))),
            Err(e) => Err(e),
        }
    } else if same_text(head, "profiles") {
        Ok(Some(make_command(CliCommand::ProfilesList, global)))
    } else if same_text(head, "deps") {
        if tokens.len() < 2 {
            return Ok(Some(make_command(CliCommand::DepsMissing, global)));
        }
        let sub = tokens[1].as_str();
        assert(t[1] == sub@);
        if same_text(sub, "missing") {
            Ok(Some(make_command(CliCommand::DepsMissing, global)))
        } else if same_text(sub, "list") {
            Ok(Some(make_command(CliCommand::DepsList, global)))
        } else if same_text(sub, "debug") {
            if tokens.len() > 2 {
                assert(t[2] == tokens@[2]@);
                Ok(Some(make_command(CliCommand::DepsDebug(tokens[2].clone()), global)))
            } else {
                Err(CliError::DebugNeedsMod)
            }
        } else {
            Err(CliError::UnknownDeps(sub.to_owned()))
        }
    } else if same_text(head, "paths") {
        Ok(Some(make_command(CliCommand::Paths, global)))
    } else {
        Ok(None)
    }
}

// ---------------------------------------------------------------------------
// Imports
// ---------------------------------------------------------------------------

/// What is read of an import so far.
#[verifier::ext_equal]
pub struct ImportArgs {
    pub paths: Seq<Seq<char>>,
    pub deploy: bool,
    pub verbosity: CliVerbosity,
    pub warnings: Seq<Seq<char>>,
}

/// Whether an argument is an option.
pub open spec fn is_option(a: Seq<char>) -> bool {
    text::starts_with(a, "-"@)
}

/// Where the paths that start at `i` end.
pub open spec fn paths_end(args: Seq<Seq<char>>, i: int) -> int
    decreases args.len() - i,
{
    if i < 0 || i >= args.len() || is_option(args[i]) {
        i
    } else {
        paths_end(args, i + 1)
    }
}

pub open spec fn level_named(level: Seq<char>) -> Option<CliVerbosity> {
    if level == "quiet"@ || level == "minimal"@ {
        Some(CliVerbosity::Quiet)
    } else if level == "normal"@ || level == "info"@ {
        Some(CliVerbosity::Normal)
    } else if level == "verbose"@ {
        Some(CliVerbosity::Verbose)
    } else if level == "debug"@ || level == "trace"@ {
        Some(CliVerbosity::Debug)
    } else {
        None
    }
}

/// How often a character occurs.
pub open spec fn occurrences(s: Seq<char>, c: char) -> nat
    decreases s.len(),
{
    if s.len() == 0 {
        0
    } else {
        occurrences(s.drop_last(), c) + if s.last() == c {
            1nat
        } else {
            0nat
        }
    }
}

/// What an import is asked to do, read from `i` on, after `o`.
pub open spec fn import_from(args: Seq<Seq<char>>, i: int, o: ImportArgs) -> ImportArgs
    decreases args.len() - i,
{
    if i < 0 || i >= args.len() {
        o
    } else {
        let a = args[i];
        if a == "--"@ {
            ImportArgs { paths: o.paths + args.skip(i + 1), ..o }
        } else if a == "--import"@ || a == "-i"@ {
            let end = paths_end(args, i + 1);
            if i + 1 < end <= args.len() {
                import_from(
                    args,
                    end,
                    ImportArgs { paths: o.paths + args.subrange(i + 1, end), ..o },
                )
            } else {
                import_from(
                    args,
                    i + 1,
                    ImportArgs {
                        warnings: o.warnings.push("--import requires one or more paths"@),
                        ..o
                    },
                )
            }
        } else if a == "--deploy"@ {
            import_from(args, i + 1, ImportArgs { deploy: true, ..o })
        } else if a == "--no-deploy"@ {
            import_from(args, i + 1, ImportArgs { deploy: false, ..o })
        } else if a == "-q"@ || a == "--quiet"@ {
            import_from(args, i + 1, ImportArgs { verbosity: CliVerbosity::Quiet, ..o })
        } else if a == "--verbose"@ {
            import_from(args, i + 1, ImportArgs { verbosity: CliVerbosity::Verbose, ..o })
        } else if a == "--verbosity"@ {
            if i + 1 < args.len() {
                match level_named(args[i + 1]) {
                    Some(v) => import_from(args, i + 2, ImportArgs { verbosity: v, ..o }),
                    None => import_from(
                        args,
                        i + 2,
                        ImportArgs {
                            verbosity: CliVerbosity::Normal,
                            warnings: o.warnings.push("Unknown verbosity: "@ + args[i + 1]),
                            ..o
                        },
                    ),
                }
            } else {
                ImportArgs { warnings: o.warnings.push("--verbosity requires a level"@), ..o }
            }
        } else if text::starts_with(a, "-v"@) && !text::starts_with(a, "--"@) {
            import_from(
                args,
                i + 1,
                ImportArgs {
                    verbosity: if occurrences(a, 'v') >= 2 {
                        CliVerbosity::Debug
                    } else {
                        CliVerbosity::Verbose
                    },
                    ..o
                },
            )
        } else {
            import_from(args, i + 1, o)
        }
    }
}

pub open spec fn no_import() -> ImportArgs {
    ImportArgs {
        paths: Seq::empty(),
        deploy: false,
        verbosity: CliVerbosity::Normal,
        warnings: Seq::empty(),
    }
}

/// What the arguments ask of an import, and what is wrong with them.
#[derive(Debug)]
pub struct LegacyImport {
    pub paths: Vec<String>,
    pub deploy: bool,
    pub verbosity: CliVerbosity,
    pub warnings: Vec<String>,
}

impl LegacyImport {
    pub open spec fn shown(self) -> ImportArgs {
        ImportArgs {
            paths: text::texts(self.paths@),
            deploy: self.deploy,
            verbosity: self.verbosity,
            warnings: text::texts(self.warnings@),
        }
    }

    fn warn(&mut self, warning: String)
        ensures
            final(self).shown() == (ImportArgs {
                warnings: old(self).shown().warnings.push(warning@),
                ..old(self).shown()
            }),
    {
        proof {
            text::lemma_texts_push(self.warnings@, warning);
        }
        self.warnings.push(warning);
    }

    fn take_paths(&mut self, args: &[String], from: usize, to: usize)
        requires
            from <= to <= args.len(),
        ensures
            final(self).shown() == (ImportArgs {
                paths: old(self).shown().paths + text::texts(args@).subrange(
                    from as int,
                    to as int,
                ),
                ..old(self).shown()
            }),
    {
        let ghost all = text::texts(args@);
        let ghost head = text::texts(self.paths@);
        let ghost was = self.shown();
        let mut i: usize = from;
        assert(head + all.subrange(from as int, i as int) =~= head);
        while i < to
            invariant
                from <= i <= to <= args.len(),
                all == text::texts(args@),
                text::texts(self.paths@) == head + all.subrange(from as int, i as int),
                self.deploy == was.deploy,
                self.verbosity == was.verbosity,
                text::texts(self.warnings@) == was.warnings,
            decreases to - i,
        {
            let path = args[i].clone();
            proof {
                text::lemma_texts_push(self.paths@, path);
                assert(all.subrange(from as int, i + 1) =~= all.subrange(
                    from as int,
                    i as int,
                ).push(path@));
                assert((head + all.subrange(from as int, i as int)).push(path@) =~= head
                    + all.subrange(from as int, i + 1));
            }
            self.paths.push(path);
            i = i + 1;
        }
    }
}

fn find_paths_end(args: &[String], start: usize) -> (r: usize)
    requires
        start <= args.len(),
    ensures
        r == paths_end(text::texts(args@), start as int),
        start <= r <= args.len(),
{
    let ghost all = text::texts(args@);
    let mut i: usize = start;
    while i < args.len() && !has_prefix(args[i].as_str(), "-")
        invariant
            start <= i <= args.len(),
            all == text::texts(args@),
            paths_end(all, i as int) == paths_end(all, start as int),
        decreases args.len() - i,
    {
        assert(all[i as int] == args@[i as int]@);
        i = i + 1;
    }
    if i < args.len() {
        assert(all[i as int] == args@[i as int]@);
    }
    i
}

fn parse_level(level: &str) -> (r: Option<CliVerbosity>)
    ensures
        r == level_named(level@),
{
    if same_text(level, "quiet") || same_text(level, "minimal") {
        Some(CliVerbosity::Quiet)
    } else if same_text(level, "normal") || same_text(level, "info") {
        Some(CliVerbosity::Normal)
    } else if same_text(level, "verbose") {
        Some(CliVerbosity::Verbose)
    } else if same_text(level, "debug") || same_text(level, "trace") {
        Some(CliVerbosity::Debug)
    } else {
        None
    }
}

/// Whether a character occurs at least twice.
fn occurs_twice(s: &str, c: char) -> (r: bool)
    ensures
        r == (occurrences(s@, c) >= 2),
{
    let v = to_chars(s);
    let mut n: usize = 0;
    let mut i: usize = 0;
    while i < v.len()
        invariant
            i <= v.len(),
            v@ == s@,
            n <= i,
            n == occurrences(s@.take(i as int), c),
        decreases v.len() - i,
    {
        if v[i] == c {
            n = n + 1;
        }
        i = i + 1;
        assert(s@.take(i as int).drop_last() =~= s@.take(i - 1));
    }
    assert(s@.take(i as int) =~= s@);
    n >= 2
}

/// What the arguments ask of an import.
pub fn parse_legacy_import(args: &[String]) -> (r: LegacyImport)
    ensures
        r.shown() == import_from(text::texts(args@), 0, no_import()),
{
    let ghost all = text::texts(args@);
    let ghost wanted = import_from(all, 0, no_import());
    let mut r = LegacyImport {
        paths: Vec::new(),
        deploy: false,
        verbosity: CliVerbosity::Normal,
        warnings: Vec::new(),
    };
    let mut i: usize = 0;
    assert(r.shown() =~= no_import());
    while i < args.len()
        invariant
            i <= args.len(),
            all == text::texts(args@),
            wanted == import_from(all, 0, no_import()),
            import_from(all, i as int, r.shown()) == wanted,
        decreases args.len() - i,
    {
        let a = args[i].as_str();
        assert(all[i as int] == a@);
        if same_text(a, "--") {
            r.take_paths(args, i + 1, args.len());
            assert(all.subrange(i + 1, all.len() as int) =~= all.skip(i + 1));
            return r;
        } else if same_text(a, "--import") || same_text(a, "-i") {
            let end = find_paths_end(args, i + 1);
            if i + 1 < end {
                r.take_paths(args, i + 1, end);
                i = end;
            } else {
                r.warn("--import requires one or more paths".to_owned());
                i = i + 1;
            }
        } else if same_text(a, "--deploy") {
            r.deploy = true;
            i = i + 1;
        } else if same_text(a, "--no-deploy") {
            r.deploy = false;
            i = i + 1;
        } else if same_text(a, "-q") || same_text(a, "--quiet") {
            r.verbosity = CliVerbosity::Quiet;
            i = i + 1;
        } else if same_text(a, "--verbose") {
            r.verbosity = CliVerbosity::Verbose;
            i = i + 1;
        } else if same_text(a, "--verbosity") {
            if i + 1 < args.len() {
                let level = args[i + 1].as_str();
                assert(all[i + 1] == level@);
                match parse_level(level) {
                    Some(v) => {
                        r.verbosity = v;
                    },
                    None => {
                        r.verbosity = CliVerbosity::Normal;
                        r.warn(concat2("Unknown verbosity: ", level));
                    },
                }
                i = i + 2;
            } else {
                r.warn("--verbosity requires a level".to_owned());
                return r;
            }
        } else if has_prefix(a, "-v") && !has_prefix(a, "--") {
            r.verbosity = if occurs_twice(a, 'v') {
                CliVerbosity::Debug
            } else {
                CliVerbosity::Verbose
            };
            i = i + 1;
        } else {
            i = i + 1;
        }
    }
    r
}

// ---------------------------------------------------------------------------
// The command line
// ---------------------------------------------------------------------------

pub open spec fn bare(c: CommandView) -> ActionView {
    ActionView::Command { command: c, format: OutputFormat::Text, profile: None }
}

/// What the arguments ask for.
pub open spec fn action(args: Seq<Seq<char>>) -> Result<ActionView, ErrorView> {
    if args.len() == 0 {
        Ok(ActionView::Ui)
    } else if args[0] == "--help"@ || args[0] == "-h"@ || args[0] == "help"@ {
        Ok(bare(CommandView::Help))
    } else if args[0] == "--version"@ || args[0] == "-V"@ || args[0] == "version"@ {
        Ok(bare(CommandView::Version))
    } else {
        match subcommand(globals(args)) {
            Err(e) => Err(e),
            Ok(Some(a)) => Ok(a),
            Ok(None) => {
                let import = import_from(args, 0, no_import());
                if import.paths.len() == 0 {
                    Ok(bare(CommandView::Help))
                } else {
                    Ok(
                        ActionView::Import {
                            paths: import.paths,
                            deploy: import.deploy,
                            verbosity: import.verbosity,
                        },
                    )
                }
            },
        }
    }
}

/// The complaints about arguments that are read as those of an import.
pub open spec fn complaints(args: Seq<Seq<char>>) -> Seq<Seq<char>> {
    if args.len() == 0 || args[0] == "--help"@ || args[0] == "-h"@ || args[0] == "help"@ || args[0]
        == "--version"@ || args[0] == "-V"@ || args[0] == "version"@ {
        Seq::empty()
    } else {
        match subcommand(globals(args)) {
            Ok(None) => import_from(args, 0, no_import()).warnings,
            _ => Seq::empty(),
        }
    }
}

fn bare_command(command: CliCommand) -> (r: CliAction)
    ensures
        r.shown() == bare(command.shown()),
{
    CliAction::Command { command, format: OutputFormat::Text, profile: None }
}

/// Reads the arguments; also what is to be complained of.
pub fn parse_args(args: &[String]) -> (r: (Result<CliAction, CliError>, Vec<String>))
    ensures
        match r.0 {
            Ok(a) => action(text::texts(args@)) == Ok::<ActionView, ErrorView>(a.shown()),
            Err(e) => action(text::texts(args@)) == Err::<ActionView, ErrorView>(e.shown()),
        },
        text::texts(r.1@) == complaints(text::texts(args@)),
{
    let ghost all = text::texts(args@);
    let none: Vec<String> = Vec::new();
    assert(text::texts(none@) =~= Seq::<Seq<char>>::empty());
    if args.len() == 0 {
        return (Ok(CliAction::Ui), none);
    }
    let first = args[0].as_str();
    assert(all[0] == first@);
    if same_text(first, "--help") || same_text(first, "-h") || same_text(first, "help") {
        return (Ok(bare_command(CliCommand::Help)), none);
    }
    if same_text(first, "--version") || same_text(first, "-V") || same_text(first, "version") {
        return (Ok(bare_command(CliCommand::Version)), none);
    }
    let (global, tokens) = parse_global_options(args);
    match parse_subcommand(tokens.as_slice(), &global) {
        Err(e) => (Err(e), none),
        Ok(Some(a)) => (Ok(a), none),
        Ok(None) => {
            let import = parse_legacy_import(args);
            assert(text::texts(import.paths@).len() == import.paths.len());
            if import.paths.is_empty() {
                (Ok(bare_command(CliCommand::Help)), import.warnings)
            } else {
                (
                    Ok(
                        CliAction::Import {
                            paths: import.paths,
                            options: CliImportOptions {
                                deploy: import.deploy,
                                verbosity: import.verbosity,
                            },
                        },
                    ),
                    import.warnings,
                )
            }
        },
    }
}

} // verus!
