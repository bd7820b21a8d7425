//! The command tree: each directory of scripts is a group of commands, each
//! executable file a command with the arguments that it declares. The tree
//! is what an argument parser is set up from; it is built along the words
//! of one invocation, so that only the directories on its way are read.

use crate::listing::{
    find_entry, first_match, hidden, is_hidden, join_path, lemma_first_match, path_in, Entry,
    EntryKind, Match,
};
use crate::metadata::{
    parse_command_metadata, parsed_metadata, ArgType, CommandMetadata, Config, ConfigView,
    LineType, LineView, MetadataView,
};
use crate::names::{clean_name, display_name, display_names, resolve_names};
use crate::text::{
    chars_of, glue, is_text, lemma_views_push, same_text, split, split_on, string_of, trim,
    trimmed, view_of, views,
};
use vstd::prelude::*;

verus! {

/// What an argument does with what is given for it.
#[derive(Debug, Clone, Copy, PartialEq, Eq, Structural)]
pub enum ArgAction {
    /// Takes one value.
    Store,
    /// Takes no value; it is set by being named.
    SetTrue,
    /// Takes one or more values and keeps them all.
    Append,
}

/// What kind of path a completion offers.
#[derive(Debug, Clone, Copy, PartialEq, Eq, Structural)]
pub enum PathKind {
    Dir,
    File,
    Any,
}

/// Completion of an argument by paths, from the directory `root` where one
/// is given.
#[derive(Debug, Clone, PartialEq)]
pub struct PathCompletion {
    pub kind: PathKind,
    pub root: Option<String>,
}

/// One argument of a command, as the argument parser is to know it.
#[derive(Debug, Clone, PartialEq)]
pub struct ArgSpec {
    pub id: String,
    pub help: String,
    /// The name after `--`, for a flag; a positional argument has none.
    pub long: Option<String>,
    pub action: ArgAction,
    pub required: bool,
    pub default_value: Option<String>,
    /// The values that are accepted; any value, where the list is empty.
    pub possible_values: Vec<String>,
    pub completion: Option<PathCompletion>,
}

/// One command of the tree. A group has children and no arguments; a script
/// has arguments and no children.
#[derive(Debug, PartialEq)]
pub struct CommandNode {
    pub name: String,
    pub description: Option<String>,
    pub arguments: Vec<ArgSpec>,
    pub children: Vec<CommandNode>,
}

/// A command with the path of the directory or file behind it.
#[derive(Debug, PartialEq)]
pub struct CommandWithPath {
    pub command: CommandNode,
    pub file_path: String,
}

/// `PathCompletion` as a mathematical value.
pub struct PathCompletionView {
    pub kind: PathKind,
    pub root: Option<Seq<char>>,
}

/// `ArgSpec` as a mathematical value.
pub struct ArgView {
    pub id: Seq<char>,
    pub help: Seq<char>,
    pub long: Option<Seq<char>>,
    pub action: ArgAction,
    pub required: bool,
    pub default_value: Option<Seq<char>>,
    pub possible_values: Seq<Seq<char>>,
    pub completion: Option<PathCompletionView>,
}

/// `CommandNode` as a mathematical value.
pub struct CommandView {
    pub name: Seq<char>,
    pub description: Option<Seq<char>>,
    pub arguments: Seq<ArgView>,
    pub children: Seq<CommandView>,
}

/// `CommandWithPath` as a mathematical value.
pub struct CommandWithPathView {
    pub command: CommandView,
    pub file_path: Seq<char>,
}

impl View for PathCompletion {
    type V = PathCompletionView;

    open spec fn view(&self) -> PathCompletionView {
        PathCompletionView { kind: self.kind, root: view_of(self.root) }
    }
}

impl View for ArgSpec {
    type V = ArgView;

    open spec fn view(&self) -> ArgView {
        ArgView {
            id: self.id@,
            help: self.help@,
            long: view_of(self.long),
            action: self.action,
            required: self.required,
            default_value: view_of(self.default_value),
            possible_values: views(self.possible_values@),
            completion: view_of(self.completion),
        }
    }
}

/// The tree below `node` as a mathematical value.
pub open spec fn node_view(node: CommandNode) -> CommandView
    decreases node,
{
    CommandView {
        name: node.name@,
        description: view_of(node.description),
        arguments: views(node.arguments@),
        children: Seq::new(
            node.children@.len(),
            |i: int|
                if 0 <= i < node.children.len() {
                    node_view(node.children[i])
                } else {
                    arbitrary()
                },
        ),
    }
}

impl View for CommandNode {
    type V = CommandView;

    open spec fn view(&self) -> CommandView {
        node_view(*self)
    }
}

impl View for CommandWithPath {
    type V = CommandWithPathView;

    open spec fn view(&self) -> CommandWithPathView {
        CommandWithPathView { command: self.command@, file_path: self.file_path@ }
    }
}

/// The children of a node are the views of its child nodes.
pub proof fn lemma_children(node: CommandNode)
    ensures
        node@.children == views(node.children@),
{
    assert(node@.children =~= views(node.children@));
}


/// The flag that every script takes besides those it declares: it asks for
/// a report of what is run, and with which environment.
pub open spec fn verbose_flag() -> ArgView {
    ArgView {
        id: "shutlverboseid"@,
        help: "Print verbose information about the command"@,
        long: Some("shutl-verbose"@),
        action: ArgAction::SetTrue,
        required: false,
        default_value: None,
        possible_values: Seq::empty(),
        completion: None,
    }
}

/// The id of the argument that takes all remaining values.
pub open spec fn catch_all_id() -> Seq<char> {
    "additional-args"@
}

/// The completion that the kind of an argument calls for.
pub open spec fn completion_for(cfg: ConfigView) -> Option<PathCompletionView> {
    let root = match cfg.complete_options {
        Some(options) => Some(options.path),
        None => None,
    };
    match cfg.arg_type {
        Some(ArgType::Dir) => Some(PathCompletionView { kind: PathKind::Dir, root }),
        Some(ArgType::File) => Some(PathCompletionView { kind: PathKind::File, root }),
        Some(ArgType::Path) => Some(PathCompletionView { kind: PathKind::Any, root }),
        _ => None,
    }
}

/// A positional argument. It is required unless it has a default. The one
/// that takes all remaining values is never required.
pub open spec fn positional_argument(
    name: Seq<char>,
    description: Seq<char>,
    cfg: ConfigView,
) -> ArgView {
    if cfg.arg_type == Some(ArgType::CatchAll) {
        ArgView {
            id: catch_all_id(),
            help: description,
            long: None,
            action: ArgAction::Append,
            required: false,
            default_value: cfg.default,
            possible_values: Seq::empty(),
            completion: None,
        }
    } else {
        ArgView {
            id: name,
            help: description,
            long: None,
            action: ArgAction::Store,
            required: cfg.default is None,
            default_value: cfg.default,
            possible_values: Seq::empty(),
            completion: completion_for(cfg),
        }
    }
}

/// The name of the flag that switches the boolean flag `name` off.
pub open spec fn negated(name: Seq<char>) -> Seq<char> {
    "no-"@ + name
}

/// The flag that switches the boolean flag `name` off.
pub open spec fn negation_flag(name: Seq<char>) -> ArgView {
    ArgView {
        id: negated(name),
        help: "Disable the '"@ + name + "' flag"@,
        long: Some(negated(name)),
        action: ArgAction::SetTrue,
        required: false,
        default_value: None,
        possible_values: Seq::empty(),
        completion: None,
    }
}

/// A flag. A boolean flag takes no value, and its default is left to the
/// environment that is made for the script. A flag is required only where it
/// is declared so and has no default: a default stands in for a value that
/// was not given.
pub open spec fn flag_argument(name: Seq<char>, description: Seq<char>, cfg: ConfigView) -> ArgView {
    let boolean = cfg.arg_type == Some(ArgType::Bool);
    ArgView {
        id: name,
        help: description,
        long: Some(name),
        action: if boolean {
            ArgAction::SetTrue
        } else {
            ArgAction::Store
        },
        required: cfg.required && cfg.default is None,
        default_value: if boolean {
            None
        } else {
            cfg.default
        },
        possible_values: if boolean {
            Seq::empty()
        } else {
            cfg.options
        },
        completion: completion_for(cfg),
    }
}

/// The arguments that one declaration stands for: a boolean flag comes with
/// the flag that switches it off, which stands before it.
pub open spec fn declared_arguments(line: LineView) -> Seq<ArgView> {
    match line {
        LineView::Description(_) => Seq::empty(),
        LineView::Positional(name, description, cfg) => seq![
            positional_argument(name, description, cfg),
        ],
        LineView::Flag(name, description, cfg) => if cfg.arg_type == Some(ArgType::Bool) {
            seq![negation_flag(name), flag_argument(name, description, cfg)]
        } else {
            seq![flag_argument(name, description, cfg)]
        },
    }
}

/// The arguments that the declarations stand for, in their order.
pub open spec fn arguments_of(lines: Seq<LineView>) -> Seq<ArgView>
    decreases lines.len(),
{
    if lines.len() == 0 {
        Seq::empty()
    } else {
        arguments_of(lines.take(lines.len() - 1)) + declared_arguments(lines[lines.len() - 1])
    }
}

/// The command for a script that declares `metadata`.
pub open spec fn script_command(name: Seq<char>, metadata: MetadataView) -> CommandView {
    CommandView {
        name,
        description: if metadata.description.len() > 0 {
            Some(metadata.description)
        } else {
            None
        },
        arguments: seq![verbose_flag()] + arguments_of(metadata.arguments),
        children: Seq::empty(),
    }
}

/// The command, under `name`, for the script at `path` with the given
/// content.
pub open spec fn script(
    name: Seq<char>,
    path: Seq<char>,
    content: Option<Seq<char>>,
) -> CommandWithPathView {
    CommandWithPathView {
        command: script_command(name, parsed_metadata(path, content)),
        file_path: path,
    }
}

/// The flag that every script takes.
fn verbose_argument() -> (r: ArgSpec)
    ensures
        r@ == verbose_flag(),
{
    let r = ArgSpec {
        id: "shutlverboseid".to_owned(),
        help: "Print verbose information about the command".to_owned(),
        long: Some("shutl-verbose".to_owned()),
        action: ArgAction::SetTrue,
        required: false,
        default_value: None,
        possible_values: Vec::new(),
        completion: None,
    };
    assert(views(r.possible_values@) =~= Seq::<Seq<char>>::empty());
    r
}

/// The completion that the kind of an argument calls for.
fn completion(cfg: &Config) -> (r: Option<PathCompletion>)
    ensures
        view_of(r) == completion_for(cfg@),
{
    let root = match &cfg.complete_options {
        Some(options) => Some(options.path.clone()),
        None => None,
    };
    match cfg.arg_type {
        Some(ArgType::Dir) => Some(PathCompletion { kind: PathKind::Dir, root }),
        Some(ArgType::File) => Some(PathCompletion { kind: PathKind::File, root }),
        Some(ArgType::Path) => Some(PathCompletion { kind: PathKind::Any, root }),
        _ => None,
    }
}

/// A copy of an optional string.
fn copy_of(text: &Option<String>) -> (r: Option<String>)
    ensures
        view_of(r) == view_of(*text),
{
    match text {
        Some(t) => Some(t.clone()),
        None => None,
    }
}

/// A copy of a list of strings.
fn copies_of(list: &Vec<String>) -> (r: Vec<String>)
    ensures
        views(r@) == views(list@),
{
    let mut r: Vec<String> = Vec::new();
    let mut i: usize = 0;
    while i < list.len()
        invariant
            i <= list.len(),
            views(r@) == views(list@).take(i as int),
        decreases list.len() - i,
    {
        let item = list[i].clone();
        proof {
            lemma_views_push(r@, item);
            assert(views(list@).take(i + 1) =~= views(list@).take(i as int).push(item@));
        }
        r.push(item);
        i += 1;
    }
    assert(views(list@).take(list.len() as int) =~= views(list@));
    r
}

/// The argument for a positional declaration.
fn positional(name: &String, description: &String, cfg: &Config) -> (r: ArgSpec)
    ensures
        r@ == positional_argument(name@, description@, cfg@),
{
    let none: Vec<String> = Vec::new();
    assert(views(none@) =~= Seq::<Seq<char>>::empty());
    match cfg.arg_type {
        Some(ArgType::CatchAll) => ArgSpec {
            id: "additional-args".to_owned(),
            help: description.clone(),
            long: None,
            action: ArgAction::Append,
            required: false,
            default_value: copy_of(&cfg.default),
            possible_values: none,
            completion: None,
        },
        _ => ArgSpec {
            id: name.clone(),
            help: description.clone(),
            long: None,
            action: ArgAction::Store,
            required: cfg.default.is_none(),
            default_value: copy_of(&cfg.default),
            possible_values: none,
            completion: completion(cfg),
        },
    }
}

/// The flag that switches a boolean flag off.
fn negation(name: &String) -> (r: ArgSpec)
    ensures
        r@ == negation_flag(name@),
{
    let none: Vec<String> = Vec::new();
    assert(views(none@) =~= Seq::<Seq<char>>::empty());
    let id = glue("no-", name.as_str());
    let help = glue(glue("Disable the '", name.as_str()).as_str(), "' flag");
    ArgSpec {
        id: id.clone(),
        help,
        long: Some(id),
        action: ArgAction::SetTrue,
        required: false,
        default_value: None,
        possible_values: none,
        completion: None,
    }
}

/// The argument for a flag declaration.
fn flag(name: &String, description: &String, cfg: &Config) -> (r: ArgSpec)
    ensures
        r@ == flag_argument(name@, description@, cfg@),
{
    let boolean = match cfg.arg_type {
        Some(ArgType::Bool) => true,
        _ => false,
    };
    let none: Vec<String> = Vec::new();
    assert(views(none@) =~= Seq::<Seq<char>>::empty());
    ArgSpec {
        id: name.clone(),
        help: description.clone(),
        long: Some(name.clone()),
        action: if boolean {
            ArgAction::SetTrue
        } else {
            ArgAction::Store
        },
        required: cfg.required && cfg.default.is_none(),
        default_value: if boolean {
            None
        } else {
            copy_of(&cfg.default)
        },
        possible_values: if boolean {
            none
        } else {
            copies_of(&cfg.options)
        },
        completion: completion(cfg),
    }
}

/// The arguments that the argument parser is to know for a script that
/// declares `metadata`, in the order of the declarations.
pub fn declared(metadata: &CommandMetadata) -> (r: Vec<ArgSpec>)
    ensures
        views(r@) == arguments_of(metadata@.arguments),
{
    let ghost lines = metadata@.arguments;
    let mut r: Vec<ArgSpec> = Vec::new();
    let mut i: usize = 0;
    assert(views(r@) =~= arguments_of(lines.take(0)));
    while i < metadata.arguments.len()
        invariant
            i <= metadata.arguments.len(),
            lines == metadata@.arguments,
            views(r@) == arguments_of(lines.take(i as int)),
        decreases metadata.arguments.len() - i,
    {
        let ghost next = lines.take(i + 1);
        let ghost before = r@;
        proof {
            assert(next.take(next.len() - 1) =~= lines.take(i as int));
            assert(next[next.len() - 1] == metadata.arguments@[i as int]@);
        }
        match &metadata.arguments[i] {
            LineType::Description(_) => {
                assert(views(r@) =~= arguments_of(next));
            },
            LineType::Positional(name, description, cfg) => {
                let arg = positional(name, description, cfg);
                r.push(arg);
                proof {
                    lemma_views_push(before, arg);
                    assert(views(r@) =~= arguments_of(next));
                }
            },
            LineType::Flag(name, description, cfg) => {
                let boolean = match cfg.arg_type {
                    Some(ArgType::Bool) => true,
                    _ => false,
                };
                if boolean {
                    let off = negation(name);
                    r.push(off);
                    proof {
                        lemma_views_push(before, off);
                    }
                }
                let ghost middle = r@;
                let arg = flag(name, description, cfg);
                r.push(arg);
                proof {
                    lemma_views_push(middle, arg);
                    assert(views(r@) =~= arguments_of(next));
                }
            },
        }
        i += 1;
    }
    assert(lines.take(metadata.arguments.len() as int) =~= lines);
    r
}

/// Builds the command for one script: `name` is the name of the command,
/// `path` where the script lies, `contents` what it holds, or `None` where
/// it could not be read.
pub fn build_script_command(name: String, path: &str, contents: Option<&str>) -> (r:
    CommandWithPath)
    ensures
        r@ == script(name@, path@, view_of(contents)),
{
    let metadata = parse_command_metadata(path, contents);
    let mut arguments: Vec<ArgSpec> = Vec::new();
    let verbose = verbose_argument();
    arguments.push(verbose);
    let mut declared_args = declared(&metadata);
    let ghost rest = declared_args@;
    arguments.append(&mut declared_args);
    let description = if chars_of(metadata.description.as_str()).len() > 0 {
        Some(metadata.description.clone())
    } else {
        None
    };
    let command = CommandNode { name, description, arguments, children: Vec::new() };
    proof {
        lemma_children(command);
        assert(views(command.children@) =~= Seq::<CommandView>::empty());
        assert(views(command.arguments@) =~= seq![verbose_flag()] + views(rest));
    }
    CommandWithPath { command, file_path: path.to_owned() }
}


/// What a directory says of itself: the trimmed text of the file `.shutl`
/// in its listing, where there is one that could be read.
pub open spec fn description_in(listing: Seq<Entry>) -> Option<Seq<char>> {
    match first_match(listing, Match::Name, ".shutl"@) {
        Some(i) => match listing[i].text {
            Some(text) => Some(trim(text@)),
            None => None,
        },
        None => None,
    }
}

/// The group for the directory `name` with the given listing and children.
pub open spec fn group(
    name: Seq<char>,
    listing: Seq<Entry>,
    children: Seq<CommandView>,
) -> CommandView {
    CommandView { name, description: description_in(listing), arguments: Seq::empty(), children }
}

/// Whether a listing shows `entry` as a group: a directory that is not
/// hidden.
pub open spec fn is_listed_directory(entry: Entry) -> bool {
    entry.kind == EntryKind::Directory && !is_hidden(entry.name@)
}

/// Whether a listing shows `entry` as a script: a file that is not hidden
/// and may be run.
pub open spec fn is_listed_script(entry: Entry) -> bool {
    entry.kind == EntryKind::File && !is_hidden(entry.name@) && entry.executable
}

/// The directories that a listing shows, in their order.
pub open spec fn listed_directories(entries: Seq<Entry>) -> Seq<Entry> {
    entries.filter(|e: Entry| is_listed_directory(e))
}

/// The scripts that a listing shows, in their order.
pub open spec fn listed_scripts(entries: Seq<Entry>) -> Seq<Entry> {
    entries.filter(|e: Entry| is_listed_script(e))
}

/// The names of the entries.
pub open spec fn names_of(entries: Seq<Entry>) -> Seq<Seq<char>> {
    Seq::new(entries.len(), |i: int| entries[i].name@)
}

/// The groups for the given directories; none has children.
pub open spec fn directory_commands(dir_path: Seq<char>, dirs: Seq<Entry>) -> Seq<
    CommandWithPathView,
> {
    Seq::new(
        dirs.len(),
        |i: int|
            CommandWithPathView {
                command: group(dirs[i].name@, dirs[i].entries@, Seq::empty()),
                file_path: join_path(dir_path, dirs[i].name@),
            },
    )
}

/// The commands for the given scripts, each under its name in `names`.
pub open spec fn script_commands(
    dir_path: Seq<char>,
    files: Seq<Entry>,
    names: Seq<Seq<char>>,
) -> Seq<CommandWithPathView> {
    Seq::new(
        files.len(),
        |i: int| script(names[i], join_path(dir_path, files[i].name@), view_of(files[i].text)),
    )
}

/// All the commands of one directory: a group for each subdirectory that is
/// not hidden, then a command for each script, under the name that the
/// other entries leave it.
pub open spec fn level(dir_path: Seq<char>, entries: Seq<Entry>) -> Seq<CommandWithPathView> {
    let dirs = listed_directories(entries);
    let files = listed_scripts(entries);
    directory_commands(dir_path, dirs) + script_commands(
        dir_path,
        files,
        display_names(names_of(dirs), names_of(files)),
    )
}

/// The script that a word names: the first executable file of that name,
/// or else the first executable file whose clean name it is. A file that
/// may not be run is never named.
pub open spec fn script_position(entries: Seq<Entry>, word: Seq<char>) -> Option<int> {
    match first_match(entries, Match::Script, word) {
        Some(i) => Some(i),
        None => first_match(entries, Match::CleanName, word),
    }
}

/// The commands without their paths.
pub open spec fn commands(items: Seq<CommandWithPathView>) -> Seq<CommandView> {
    Seq::new(items.len(), |i: int| items[i].command)
}

/// The commands that one invocation needs, for the directory at `dir_path`
/// with the listing `entries` and the words `args` that are still to be
/// followed.
///
/// With no word left, these are all the commands of the directory. A word
/// that names a subdirectory gives the group for it alone, with below it
/// what the remaining words give there. A word that names a script gives
/// the command for it alone. Any other word, and an empty one, names
/// nothing and is passed over.
pub open spec fn tree(dir_path: Seq<char>, entries: Seq<Entry>, args: Seq<Seq<char>>) -> Seq<
    CommandWithPathView,
>
    decreases args.len(),
{
    if args.len() == 0 {
        level(dir_path, entries)
    } else if args[0].len() == 0 {
        tree(dir_path, entries, args.skip(1))
    } else {
        let word = args[0];
        let rest = args.skip(1);
        match first_match(entries, Match::Directory, word) {
            Some(i) => {
                let path = join_path(dir_path, word);
                let listing = entries[i].entries@;
                seq![
                    CommandWithPathView {
                        command: group(word, listing, commands(tree(path, listing, rest))),
                        file_path: path,
                    },
                ]
            },
            None => match script_position(entries, word) {
                Some(j) => seq![
                    script(word, join_path(dir_path, entries[j].name@), view_of(entries[j].text)),
                ],
                None => tree(dir_path, entries, rest),
            },
        }
    }
}

/// The entries at the given positions.
pub open spec fn chosen(entries: Seq<Entry>, picks: Seq<usize>) -> Seq<Entry> {
    Seq::new(picks.len(), |k: int| entries[picks[k] as int])
}

/// The positions of the directories, or of the scripts, that a listing
/// shows.
fn listed(entries: &Vec<Entry>, scripts: bool) -> (r: Vec<usize>)
    ensures
        forall|k: int| 0 <= k < r.len() ==> r@[k] < entries.len(),
        chosen(entries@, r@) == if scripts {
            listed_scripts(entries@)
        } else {
            listed_directories(entries@)
        },
{
    let ghost wanted = if scripts {
        |e: Entry| is_listed_script(e)
    } else {
        |e: Entry| is_listed_directory(e)
    };
    let mut r: Vec<usize> = Vec::new();
    let mut i: usize = 0;
    proof {
        reveal(Seq::filter);
        assert(chosen(entries@, r@) =~= entries@.take(0).filter(wanted));
    }
    while i < entries.len()
        invariant
            i <= entries.len(),
            wanted == if scripts {
                |e: Entry| is_listed_script(e)
            } else {
                |e: Entry| is_listed_directory(e)
            },
            forall|k: int| 0 <= k < r.len() ==> r@[k] < entries.len(),
            chosen(entries@, r@) == entries@.take(i as int).filter(wanted),
        decreases entries.len() - i,
    {
        let entry = &entries[i];
        let shown = !hidden(entry.name.as_str()) && if scripts {
            entry.kind == EntryKind::File && entry.executable
        } else {
            entry.kind == EntryKind::Directory
        };
        proof {
            assert(shown == wanted(entries@[i as int]));
            assert(entries@.take(i + 1) =~= entries@.take(i as int).push(entries@[i as int]));
            entries@.take(i as int).lemma_filter_push(entries@[i as int], wanted);
        }
        let ghost before = r@;
        if shown {
            r.push(i);
            assert(chosen(entries@, r@) =~= chosen(entries@, before).push(entries@[i as int]));
        }
        i += 1;
    }
    assert(entries@.take(entries.len() as int) =~= entries@);
    r
}

/// The names of the entries at the given positions.
fn names_at(entries: &Vec<Entry>, picks: &Vec<usize>) -> (r: Vec<String>)
    requires
        forall|k: int| 0 <= k < picks.len() ==> picks@[k] < entries.len(),
    ensures
        views(r@) == names_of(chosen(entries@, picks@)),
{
    let ghost all = names_of(chosen(entries@, picks@));
    let mut r: Vec<String> = Vec::new();
    let mut k: usize = 0;
    assert(views(r@) =~= all.take(0));
    while k < picks.len()
        invariant
            k <= picks.len(),
            forall|k: int| 0 <= k < picks.len() ==> picks@[k] < entries.len(),
            all == names_of(chosen(entries@, picks@)),
            views(r@) == all.take(k as int),
        decreases picks.len() - k,
    {
        let name = entries[picks[k]].name.clone();
        proof {
            lemma_views_push(r@, name);
            assert(all.take(k + 1) =~= all.take(k as int).push(name@));
        }
        r.push(name);
        k += 1;
    }
    assert(all.take(picks.len() as int) =~= all);
    r
}

/// What a directory says of itself in its file `.shutl`.
fn dir_description(listing: &Vec<Entry>) -> (r: Option<String>)
    ensures
        view_of(r) == description_in(listing@),
{
    match find_entry(listing, Match::Name, ".shutl") {
        Some(i) => match &listing[i].text {
            Some(text) => Some(string_of(&trimmed(&chars_of(text.as_str())))),
            None => None,
        },
        None => None,
    }
}

/// The group for a directory, without children: `dir_name` is its name,
/// `listing` what it holds.
pub fn dir_command(dir_name: &str, listing: &Vec<Entry>) -> (r: CommandNode)
    ensures
        r@ == group(dir_name@, listing@, Seq::empty()),
{
    let r = CommandNode {
        name: dir_name.to_owned(),
        description: dir_description(listing),
        arguments: Vec::new(),
        children: Vec::new(),
    };
    proof {
        lemma_children(r);
        assert(views(r.children@) =~= Seq::<CommandView>::empty());
        assert(views(r.arguments@) =~= Seq::<ArgView>::empty());
    }
    r
}

/// Puts the given commands below a group, after the children it has.
pub fn add_dir_subcommands(dir_cmd: CommandNode, subcommands: Vec<CommandWithPath>) -> (r:
    CommandNode)
    ensures
        r@ == (CommandView {
            children: dir_cmd@.children + commands(views(subcommands@)),
            ..dir_cmd@
        }),
{
    let ghost added = commands(views(subcommands@));
    let ghost start = dir_cmd@;
    let mut node = dir_cmd;
    proof {
        lemma_children(node);
        assert(start.children + added.take(0) =~= start.children);
    }
    let ghost all = subcommands@;
    for item in it: subcommands.into_iter()
        invariant
            it.seq() == all,
            added == commands(views(all)),
            node@ == (CommandView { children: start.children + added.take(it.index() as int), ..start }),
    {
        let ghost before = node;
        proof {
            lemma_children(before);
            lemma_views_push(before.children@, item.command);
            assert(added.take(it.index() + 1) =~= added.take(it.index() as int).push(
                item.command@,
            ));
        }
        node.children.push(item.command);
        proof {
            lemma_children(node);
            assert(node@.children =~= start.children + added.take(it.index() + 1));
        }
    }
    assert(added.take(all.len() as int) =~= added);
    node
}

/// The commands of one directory: a group for each subdirectory, then a
/// command for each script. Hidden entries, and files that may not be run,
/// are left out.
pub fn commands_for_dir(dir_path: &str, entries: &Vec<Entry>) -> (r: Vec<CommandWithPath>)
    ensures
        views(r@) == level(dir_path@, entries@),
{
    let dirs = listed(entries, false);
    let files = listed(entries, true);
    let names = resolve_names(&names_at(entries, &dirs), &names_at(entries, &files));
    let ghost d = listed_directories(entries@);
    let ghost f = listed_scripts(entries@);
    let ghost groups = directory_commands(dir_path@, d);
    let ghost leaves = script_commands(dir_path@, f, display_names(names_of(d), names_of(f)));
    let mut r: Vec<CommandWithPath> = Vec::new();
    let mut k: usize = 0;
    assert(views(r@) =~= groups.take(0));
    while k < dirs.len()
        invariant
            k <= dirs.len(),
            forall|k: int| 0 <= k < dirs.len() ==> dirs@[k] < entries.len(),
            d == chosen(entries@, dirs@),
            groups == directory_commands(dir_path@, d),
            views(r@) == groups.take(k as int),
        decreases dirs.len() - k,
    {
        let entry = &entries[dirs[k]];
        let item = CommandWithPath {
            command: dir_command(entry.name.as_str(), &entry.entries),
            file_path: path_in(dir_path, entry.name.as_str()),
        };
        proof {
            lemma_views_push(r@, item);
            assert(groups.take(k + 1) =~= groups.take(k as int).push(item@));
        }
        r.push(item);
        k += 1;
    }
    assert(groups.take(dirs.len() as int) =~= groups);
    let mut k: usize = 0;
    assert(views(r@) =~= groups + leaves.take(0));
    assert(views(names@).len() == names_of(f).len());
    while k < files.len()
        invariant
            k <= files.len() == names.len(),
            forall|k: int| 0 <= k < files.len() ==> files@[k] < entries.len(),
            f == chosen(entries@, files@),
            views(names@) == display_names(names_of(d), names_of(f)),
            leaves == script_commands(dir_path@, f, display_names(names_of(d), names_of(f))),
            views(r@) == groups + leaves.take(k as int),
        decreases files.len() - k,
    {
        let entry = &entries[files[k]];
        let path = path_in(dir_path, entry.name.as_str());
        let contents = match &entry.text {
            Some(text) => Some(text.as_str()),
            None => None,
        };
        assert(views(names@)[k as int] == names@[k as int]@);
        let item = build_script_command(names[k].clone(), path.as_str(), contents);
        proof {
            lemma_views_push(r@, item);
            assert(leaves.take(k + 1) =~= leaves.take(k as int).push(item@));
            assert(views(r@).push(item@) =~= groups + leaves.take(k + 1));
        }
        r.push(item);
        k += 1;
    }
    assert(leaves.take(files.len() as int) =~= leaves);
    r
}

/// Finds the script that a word names.
pub fn is_script_file(entries: &Vec<Entry>, name: &str) -> (r: Option<usize>)
    ensures
        match r {
            Some(i) => script_position(entries@, name@) == Some(i as int) && i < entries.len(),
            None => script_position(entries@, name@) is None,
        },
{
    match find_entry(entries, Match::Script, name) {
        Some(i) => Some(i),
        None => find_entry(entries, Match::CleanName, name),
    }
}

/// Builds the commands from the word at `from` on.
fn build_from(dir_path: &str, entries: &Vec<Entry>, active_args: &Vec<String>, from: usize) -> (r:
    Vec<CommandWithPath>)
    requires
        from <= active_args.len(),
    ensures
        views(r@) == tree(dir_path@, entries@, views(active_args@).skip(from as int)),
    decreases active_args.len() - from,
{
    let ghost args = views(active_args@).skip(from as int);
    if from == active_args.len() {
        return commands_for_dir(dir_path, entries);
    }
    let word = active_args[from].as_str();
    proof {
        assert(args[0] == word@);
        assert(args.skip(1) =~= views(active_args@).skip(from + 1));
    }
    if chars_of(word).len() == 0 {
        return build_from(dir_path, entries, active_args, from + 1);
    }
    let mut r: Vec<CommandWithPath> = Vec::new();
    match find_entry(entries, Match::Directory, word) {
        Some(i) => {
            let path = path_in(dir_path, word);
            let listing = &entries[i].entries;
            let below = build_from(path.as_str(), listing, active_args, from + 1);
            let command = add_dir_subcommands(dir_command(word, listing), below);
            let item = CommandWithPath { command, file_path: path };
            proof {
                lemma_views_push(r@, item);
                assert(item@.command.children =~= commands(views(below@)));
            }
            r.push(item);
            assert(views(r@) =~= seq![item@]);
            r
        },
        None => match is_script_file(entries, word) {
            Some(j) => {
                let entry = &entries[j];
                let path = path_in(dir_path, entry.name.as_str());
                let contents = match &entry.text {
                    Some(text) => Some(text.as_str()),
                    None => None,
                };
                let item = build_script_command(word.to_owned(), path.as_str(), contents);
                proof {
                    lemma_views_push(r@, item);
                }
                r.push(item);
                assert(views(r@) =~= seq![item@]);
                r
            },
            None => build_from(dir_path, entries, active_args, from + 1),
        },
    }
}

/// Builds the commands that one invocation needs. `dir_path` is the
/// directory of the scripts, `entries` its listing, `active_args` the words
/// of the invocation.
pub fn build_command_tree(dir_path: &str, entries: &Vec<Entry>, active_args: &Vec<String>) -> (r:
    Vec<CommandWithPath>)
    ensures
        views(r@) == tree(dir_path@, entries@, views(active_args@)),
{
    assert(views(active_args@).skip(0) =~= views(active_args@));
    build_from(dir_path, entries, active_args, 0)
}


/// Whether a word names nothing in a listing: it is empty, or neither a
/// subdirectory nor a script goes by it.
pub open spec fn names_nothing(entries: Seq<Entry>, word: Seq<char>) -> bool {
    word.len() == 0 || (first_match(entries, Match::Directory, word) is None && script_position(
        entries,
        word,
    ) is None)
}

/// The subdirectory that the words lead into first, with the number of
/// words up to and including the one that names it; nothing, where the
/// words end in this directory or at a script of it.
pub open spec fn entered(entries: Seq<Entry>, args: Seq<Seq<char>>) -> Option<(int, int)>
    decreases args.len(),
{
    if args.len() == 0 {
        None
    } else if names_nothing(entries, args[0]) {
        match entered(entries, args.skip(1)) {
            Some((i, used)) => Some((i, used + 1)),
            None => None,
        }
    } else {
        match first_match(entries, Match::Directory, args[0]) {
            Some(i) => Some((i, 1)),
            None => None,
        }
    }
}

/// The commands that the words give are those of the one subdirectory that
/// they lead into first: no other subdirectory is looked into.
pub proof fn tree_follows_the_words(dir_path: Seq<char>, entries: Seq<Entry>, args: Seq<Seq<char>>)
    ensures
        match entered(entries, args) {
            Some((i, used)) => {
                let word = args[used - 1];
                let path = join_path(dir_path, word);
                let listing = entries[i].entries@;
                &&& 0 < used <= args.len()
                &&& first_match(entries, Match::Directory, word) == Some(i)
                &&& tree(dir_path, entries, args) == seq![
                    CommandWithPathView {
                        command: group(
                            word,
                            listing,
                            commands(tree(path, listing, args.skip(used))),
                        ),
                        file_path: path,
                    },
                ]
            },
            None => true,
        },
    decreases args.len(),
{
    if args.len() == 0 {
    } else if names_nothing(entries, args[0]) {
        let rest = args.skip(1);
        tree_follows_the_words(dir_path, entries, rest);
        if let Some((i, used)) = entered(entries, rest) {
            assert(rest[used - 1] == args[used]);
            assert(rest.skip(used) =~= args.skip(used + 1));
        }
    }
}

/// Finds the subdirectory that the words from `from` on lead into first,
/// and the position of the first word after its name.
pub fn next_directory(entries: &Vec<Entry>, active_args: &Vec<String>, from: usize) -> (r: Option<
    (usize, usize),
>)
    requires
        from <= active_args.len(),
    ensures
        match r {
            Some((i, next)) => i < entries.len() && from < next <= active_args.len() && entered(
                entries@,
                views(active_args@).skip(from as int),
            ) == Some((i as int, next - from)),
            None => entered(entries@, views(active_args@).skip(from as int)) is None,
        },
{
    let ghost all = views(active_args@);
    let mut k: usize = from;
    while k < active_args.len()
        invariant
            from <= k <= active_args.len(),
            all == views(active_args@),
            match entered(entries@, all.skip(k as int)) {
                Some((i, used)) => entered(entries@, all.skip(from as int)) == Some(
                    (i, used + k - from),
                ),
                None => entered(entries@, all.skip(from as int)) is None,
            },
        decreases active_args.len() - k,
    {
        let word = active_args[k].as_str();
        proof {
            assert(all.skip(k as int)[0] == word@);
            assert(all.skip(k as int).skip(1) =~= all.skip(k + 1));
        }
        if chars_of(word).len() > 0 {
            if let Some(i) = find_entry(entries, Match::Directory, word) {
                return Some((i, k + 1));
            }
            if is_script_file(entries, word).is_some() {
                return None;
            }
        }
        k += 1;
    }
    None
}

/// The name of the program at `path`: what follows the last `/`.
pub open spec fn program_name(path: Seq<char>) -> Seq<char> {
    let pieces = split(path, '/');
    pieces[pieces.len() - 1]
}

/// The words that the commands are built along. Where completion is asked
/// for, and the arguments after the program are `--` and the name of the
/// program, these two lead: the words are what follows `--`. Otherwise they
/// are all the arguments, the program first.
pub open spec fn active(args: Seq<Seq<char>>, completing: bool) -> Seq<Seq<char>> {
    if completing && args.len() > 2 && args[1] == "--"@ && args[2] == program_name(args[0]) {
        args.skip(2)
    } else {
        args
    }
}

/// The whole command line interface: the program `shutl`, with the
/// commands that the invocation needs below it.
pub open spec fn cli(
    args: Seq<Seq<char>>,
    completing: bool,
    scripts_dir: Seq<char>,
    entries: Seq<Entry>,
) -> CommandView {
    CommandView {
        name: "shutl"@,
        description: None,
        arguments: Seq::empty(),
        children: commands(tree(scripts_dir, entries, active(args, completing))),
    }
}

/// The name of the program at `path`.
fn name_of_program(path: &str) -> (r: Vec<char>)
    ensures
        r@ == program_name(path@),
{
    let v = chars_of(path);
    let mut pieces = split_on(&v, '/');
    assert(split(v@, '/').len() > 0);
    assert(views(pieces@)[pieces.len() - 1] == pieces@[pieces.len() - 1]@);
    match pieces.pop() {
        Some(last) => last,
        None => Vec::new(),
    }
}

/// The words that the commands are built along: `args` are the arguments
/// of the process, the program first; `completing` says whether completion
/// is asked for.
pub fn active_arguments(args: &Vec<String>, completing: bool) -> (r: Vec<String>)
    ensures
        views(r@) == active(views(args@), completing),
{
    let ghost all = views(args@);
    let skip = completing && args.len() > 2 && is_text(&chars_of(args[1].as_str()), "--")
        && same_text(&chars_of(args[2].as_str()), &name_of_program(args[0].as_str()));
    let mut i: usize = if skip {
        2
    } else {
        0
    };
    let ghost start = i as int;
    let mut r: Vec<String> = Vec::new();
    assert(views(r@) =~= all.skip(start).take(0));
    while i < args.len()
        invariant
            0 <= start <= i <= args.len(),
            all == views(args@),
            views(r@) == all.skip(start).take(i - start),
        decreases args.len() - i,
    {
        let word = args[i].clone();
        proof {
            lemma_views_push(r@, word);
            assert(all.skip(start)[i - start] == word@);
            assert(all.skip(start).take(i + 1 - start) =~= all.skip(start).take(i - start).push(
                word@,
            ));
        }
        r.push(word);
        i += 1;
    }
    proof {
        assert(all.skip(start).take(args.len() - start) =~= all.skip(start));
        assert(all.skip(0) =~= all);
    }
    r
}

/// Builds the whole command line interface: `args` are the arguments of
/// the process, `completing` says whether completion is asked for,
/// `scripts_dir` is the directory of the scripts and `entries` its listing.
pub fn build_cli_command(
    args: &Vec<String>,
    completing: bool,
    scripts_dir: &str,
    entries: &Vec<Entry>,
) -> (r: CommandNode)
    ensures
        r@ == cli(views(args@), completing, scripts_dir@, entries@),
{
    let root = CommandNode {
        name: "shutl".to_owned(),
        description: None,
        arguments: Vec::new(),
        children: Vec::new(),
    };
    proof {
        lemma_children(root);
        assert(views(root.children@) =~= Seq::<CommandView>::empty());
        assert(views(root.arguments@) =~= Seq::<ArgView>::empty());
    }
    let active_args = active_arguments(args, completing);
    let below = build_command_tree(scripts_dir, entries, &active_args);
    let r = add_dir_subcommands(root, below);
    assert(r@.children =~= commands(views(below@)));
    r
}

/// Whether no command of the tree below `node`, the node itself included,
/// has a hidden name.
pub open spec fn all_visible(node: CommandView) -> bool
    decreases node,
{
    &&& !is_hidden(node.name)
    &&& forall|i: int|
        0 <= i < node.children.len() ==> all_visible(#[trigger] node.children[i])
}

/// Taking the script extension off a name that is not hidden leaves a name
/// that is not hidden.
pub proof fn clean_name_stays_visible(name: Seq<char>)
    requires
        !is_hidden(name),
    ensures
        !is_hidden(clean_name(name)),
{
    reveal_strlit(".sh");
    reveal_strlit(".py");
    reveal_strlit(".rb");
    reveal_strlit(".js");
    let cleaned = clean_name(name);
    if cleaned.len() > 0 && cleaned != name {
        assert(cleaned == name.take(name.len() - 3));
        assert(cleaned[0] == name[0]);
    }
}

/// No command of a directory has a hidden name.
pub proof fn level_is_visible(dir_path: Seq<char>, entries: Seq<Entry>)
    ensures
        forall|k: int|
            0 <= k < level(dir_path, entries).len() ==> all_visible(
                (#[trigger] level(dir_path, entries)[k]).command,
            ),
{
    let dirs = listed_directories(entries);
    let files = listed_scripts(entries);
    let names = display_names(names_of(dirs), names_of(files));
    let all = level(dir_path, entries);
    assert forall|k: int| 0 <= k < all.len() implies all_visible((#[trigger] all[k]).command) by {
        if k < dirs.len() {
            entries.lemma_filter_pred(|e: Entry| is_listed_directory(e), k);
            assert(is_listed_directory(dirs[k]));
            assert(all[k].command == group(dirs[k].name@, dirs[k].entries@, Seq::empty()));
        } else {
            let j = k - dirs.len();
            entries.lemma_filter_pred(|e: Entry| is_listed_script(e), j);
            assert(is_listed_script(files[j]));
            assert(names_of(files)[j] == files[j].name@);
            clean_name_stays_visible(files[j].name@);
            assert(names[j] == display_name(names_of(dirs), names_of(files), j));
            assert(all[k].command.name == names[j]);
        }
    }
}

/// Whether the words lead through a hidden entry: a word that begins with
/// a dot names a subdirectory or a script in the listing in which it is
/// looked up. The words are walked as `tree` walks them, so a word that is
/// passed over, or never reached, does not count.
pub open spec fn follows_hidden(entries: Seq<Entry>, args: Seq<Seq<char>>) -> bool
    decreases args.len(),
{
    if args.len() == 0 {
        false
    } else if names_nothing(entries, args[0]) {
        follows_hidden(entries, args.skip(1))
    } else {
        match first_match(entries, Match::Directory, args[0]) {
            Some(i) => is_hidden(args[0]) || follows_hidden(entries[i].entries@, args.skip(1)),
            None => is_hidden(args[0]),
        }
    }
}

/// An entry whose name begins with a dot is never a command: unless the
/// words themselves lead through a hidden entry, no command at any depth of
/// the tree has a hidden name.
pub proof fn hidden_entries_are_no_commands(
    dir_path: Seq<char>,
    entries: Seq<Entry>,
    args: Seq<Seq<char>>,
)
    requires
        !follows_hidden(entries, args),
    ensures
        forall|k: int|
            0 <= k < tree(dir_path, entries, args).len() ==> all_visible(
                (#[trigger] tree(dir_path, entries, args)[k]).command,
            ),
    decreases args.len(),
{
    if args.len() == 0 {
        level_is_visible(dir_path, entries);
    } else if names_nothing(entries, args[0]) {
        hidden_entries_are_no_commands(dir_path, entries, args.skip(1));
    } else {
        let word = args[0];
        let rest = args.skip(1);
        match first_match(entries, Match::Directory, word) {
            Some(i) => {
                let path = join_path(dir_path, word);
                let listing = entries[i].entries@;
                hidden_entries_are_no_commands(path, listing, rest);
                let below = tree(path, listing, rest);
                let node = group(word, listing, commands(below));
                assert forall|c: int| 0 <= c < node.children.len() implies all_visible(
                    #[trigger] node.children[c],
                ) by {
                    assert(node.children[c] == below[c].command);
                }
                assert(all_visible(node));
            },
            None => {},
        }
    }
}

/// The entry behind a command that a word names is hidden only where the
/// word is: a directory goes by its own name, and a script whose name
/// begins with a dot has a clean name that begins with one too, or none.
pub proof fn named_entry_is_visible(entries: Seq<Entry>, word: Seq<char>)
    requires
        word.len() > 0,
        !is_hidden(word),
    ensures
        match first_match(entries, Match::Directory, word) {
            Some(i) => 0 <= i < entries.len() && !is_hidden(entries[i].name@),
            None => match script_position(entries, word) {
                Some(j) => 0 <= j < entries.len() && !is_hidden(entries[j].name@),
                None => true,
            },
        },
{
    lemma_first_match(entries, Match::Directory, word);
    lemma_first_match(entries, Match::Script, word);
    lemma_first_match(entries, Match::CleanName, word);
    if let Some(j) = first_match(entries, Match::CleanName, word) {
        let name = entries[j].name@;
        if is_hidden(name) {
            reveal_strlit(".sh");
            reveal_strlit(".py");
            reveal_strlit(".rb");
            reveal_strlit(".js");
            let cleaned = clean_name(name);
            if cleaned != name {
                assert(cleaned == name.take(name.len() - 3));
                assert(cleaned[0] == name[0]);
            }
        }
    }
}

/// Whether a path holds nothing to write out: no `$`, and no `~` at its
/// start.
pub open spec fn is_plain_path(path: Seq<char>) -> bool {
    !path.contains('$') && !(path.len() > 0 && path[0] == '~')
}

/// `shellexpand::full`: a path with a leading `~` and the variables of the
/// environment written out. A path that holds neither comes back as it is.
/// Of any other path nothing is claimed, as what comes back depends on the
/// environment; it fails where a variable is not set.
#[verifier::external_body]
fn expand_path(input: &str) -> (r: Option<String>)
    ensures
        is_plain_path(input@) ==> view_of(r) == Some(input@),
{
    shellexpand::full(input).ok().map(|expanded| expanded.into_owned())
}

/// The directory from which the completion of an argument starts.
pub open spec fn root_of(arg: ArgView) -> Option<Seq<char>> {
    match arg.completion {
        Some(completion) => completion.root,
        None => None,
    }
}

/// The argument with `root` as the directory from which its completion
/// starts; an argument that is not completed by paths stays as it is.
pub open spec fn rooted_at(arg: ArgView, root: Seq<char>) -> ArgView {
    match arg.completion {
        Some(completion) => ArgView {
            completion: Some(PathCompletionView { kind: completion.kind, root: Some(root) }),
            ..arg
        },
        None => arg,
    }
}

/// The directory from which the completion of an argument starts, if it
/// names one.
pub fn completion_root(arg: &ArgSpec) -> (r: Option<String>)
    ensures
        view_of(r) == root_of(arg@),
{
    match &arg.completion {
        Some(completion) => match &completion.root {
            Some(root) => Some(root.clone()),
            None => None,
        },
        None => None,
    }
}

/// Sets the directory from which the completion of an argument starts.
pub fn with_root(arg: ArgSpec, root: String) -> (r: ArgSpec)
    ensures
        r@ == rooted_at(arg@, root@),
{
    let mut arg = arg;
    let kind = match &arg.completion {
        Some(completion) => Some(completion.kind),
        None => None,
    };
    if let Some(kind) = kind {
        arg.completion = Some(PathCompletion { kind, root: Some(root) });
    }
    arg
}

/// Writes out `~` and the variables of the environment in the directory
/// from which the completion of an argument starts. An argument without
/// such a directory, or with one that holds nothing to write out, comes
/// back as it is. Nothing comes back where the directory names a variable
/// that is not set.
pub fn with_expanded_root(arg: ArgSpec) -> (r: Option<ArgSpec>)
    ensures
        match root_of(arg@) {
            None => view_of(r) == Some(arg@),
            Some(root) => {
                &&& is_plain_path(root) ==> view_of(r) == Some(arg@)
                &&& r matches Some(expanded) ==> exists|written: Seq<char>|
                    expanded@ == rooted_at(arg@, written)
            },
        },
{
    match completion_root(&arg) {
        Some(root) => match expand_path(root.as_str()) {
            Some(written) => {
                let ghost before = arg@;
                let r = with_root(arg, written);
                assert(r@ == rooted_at(before, written@));
                Some(r)
            },
            None => None,
        },
        None => Some(arg),
    }
}

} // verus!
