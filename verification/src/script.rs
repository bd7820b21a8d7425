//! Running a script: the environment that carries the arguments of an
//! invocation to it, and the file that the words of an invocation name.

use crate::command::{catch_all_id, negated};
use crate::listing::{find_entry, first_match, join_path, path_in, Entry, Match};
use crate::metadata::{
    parse_command_metadata, parsed_metadata, ArgType, CommandMetadata, Config, ConfigView,
    LineType, LineView,
};
use crate::text::{
    chars_of, glue, join, joined, lemma_views_push, replace_char, replaced, same_str, string_of,
    view_of, views,
};
use vstd::prelude::*;

verus! {

/// One argument that an invocation gave, with the values given for it; a
/// flag that takes no value has none.
#[derive(Debug, Clone, PartialEq)]
pub struct ParsedArg {
    pub id: String,
    pub values: Vec<String>,
}

/// What the argument parser found in an invocation.
#[derive(Debug, Clone, PartialEq)]
pub struct ParsedArgs {
    pub given: Vec<ParsedArg>,
}

/// What is to be run, and how.
#[derive(Debug, Clone, PartialEq)]
pub struct Launch {
    /// The file to run.
    pub program: String,
    /// The variables to set for it, in the order in which they are to be
    /// set: of two with one name, the later one stays.
    pub environment: Vec<(String, String)>,
    /// Whether program and variables are to be printed before the run.
    pub verbose: bool,
}

/// What `str::to_uppercase` makes of a string.
pub uninterp spec fn uppercase(s: Seq<char>) -> Seq<char>;

/// `str::to_uppercase`: the upper-case form of a string.
#[verifier::external_body]
fn to_uppercase(s: &str) -> (r: String)
    ensures
        r@ == uppercase(s@),
{
    s.to_uppercase()
}

/// Whether the invocation gave the argument `id`.
pub open spec fn is_given(given: Seq<ParsedArg>, id: Seq<char>) -> bool {
    exists|i: int| 0 <= i < given.len() && (#[trigger] given[i]).id@ == id
}

/// The values given for the argument `id`, where it was given; those of the
/// first mention, where it was given more than once.
pub open spec fn values_for(given: Seq<ParsedArg>, id: Seq<char>) -> Option<Seq<Seq<char>>>
    decreases given.len(),
{
    if given.len() == 0 {
        None
    } else if given[0].id@ == id {
        Some(views(given[0].values@))
    } else {
        values_for(given.skip(1), id)
    }
}

/// The one value given for the argument `id`.
pub open spec fn value_for(given: Seq<ParsedArg>, id: Seq<char>) -> Option<Seq<char>> {
    match values_for(given, id) {
        Some(values) => if values.len() > 0 {
            Some(values[0])
        } else {
            None
        },
        None => None,
    }
}

/// The name of the environment variable for the argument `name`: the name
/// in upper case, with `_` for each `-`, after the prefix `SHUTL_`.
pub open spec fn env_name(name: Seq<char>) -> Seq<char> {
    "SHUTL_"@ + uppercase(replace_char(name, '-', '_'))
}

/// The name of the environment variable that holds all remaining values.
pub open spec fn catch_all_variable() -> Seq<char> {
    "SHUTL_ADDITIONAL_ARGS"@
}

/// The value of an argument that takes a value: the one given, else the
/// default, else nothing.
pub open spec fn plain_value(given: Seq<ParsedArg>, name: Seq<char>, cfg: ConfigView) -> Seq<char> {
    match value_for(given, name) {
        Some(value) => value,
        None => match cfg.default {
            Some(default) => default,
            None => Seq::empty(),
        },
    }
}

/// The value of a boolean flag: `false` where the flag that switches it off
/// was given, else `true` where the flag itself was given, else its default,
/// else `false`.
pub open spec fn bool_value(given: Seq<ParsedArg>, name: Seq<char>, cfg: ConfigView) -> Seq<char> {
    if is_given(given, negated(name)) {
        "false"@
    } else if is_given(given, name) {
        "true"@
    } else {
        match cfg.default {
            Some(default) => default,
            None => "false"@,
        }
    }
}

/// The variables that one declaration sets. The argument that takes all
/// remaining values sets its variable only where such values were given: to
/// those values with a space between each two.
pub open spec fn variables_for(line: LineView, given: Seq<ParsedArg>) -> Seq<
    (Seq<char>, Seq<char>),
> {
    match line {
        LineView::Description(_) => Seq::empty(),
        LineView::Positional(name, _, cfg) => if cfg.arg_type == Some(ArgType::CatchAll) {
            match values_for(given, catch_all_id()) {
                Some(values) => seq![(catch_all_variable(), join(values, " "@))],
                None => Seq::empty(),
            }
        } else {
            seq![(env_name(name), plain_value(given, name, cfg))]
        },
        LineView::Flag(name, _, cfg) => if cfg.arg_type == Some(ArgType::Bool) {
            seq![(env_name(name), bool_value(given, name, cfg))]
        } else {
            seq![(env_name(name), plain_value(given, name, cfg))]
        },
    }
}

/// The variables that the declarations set, in their order.
pub open spec fn environment(lines: Seq<LineView>, given: Seq<ParsedArg>) -> Seq<
    (Seq<char>, Seq<char>),
>
    decreases lines.len(),
{
    if lines.len() == 0 {
        Seq::empty()
    } else {
        environment(lines.take(lines.len() - 1), given) + variables_for(
            lines[lines.len() - 1],
            given,
        )
    }
}

/// The status with which the program ends after the script has run: that
/// of the script, or 1 where the script ended without one.
pub open spec fn status_after(success: bool, code: Option<i32>) -> i32 {
    if success {
        0
    } else {
        match code {
            Some(c) => c,
            None => 1,
        }
    }
}

/// For a boolean flag, the flag that switches it off decides: the variable
/// is `false`, whatever the default and whether or not the flag itself was
/// given too.
pub proof fn negation_wins(
    given: Seq<ParsedArg>,
    name: Seq<char>,
    description: Seq<char>,
    cfg: ConfigView,
)
    requires
        cfg.arg_type == Some(ArgType::Bool),
        is_given(given, negated(name)),
    ensures
        variables_for(LineView::Flag(name, description, cfg), given) == seq![
            (env_name(name), "false"@),
        ],
{
}

/// Tells whether the invocation gave the argument `id`.
pub fn given(matches: &ParsedArgs, id: &str) -> (r: bool)
    ensures
        r == is_given(matches.given@, id@),
{
    let mut i: usize = 0;
    while i < matches.given.len()
        invariant
            i <= matches.given.len(),
            forall|k: int| 0 <= k < i ==> (#[trigger] matches.given@[k]).id@ != id@,
        decreases matches.given.len() - i,
    {
        if same_str(matches.given[i].id.as_str(), id) {
            return true;
        }
        i += 1;
    }
    false
}

/// The position of the first mention of the argument `id`.
fn mention(matches: &ParsedArgs, id: &str) -> (r: Option<usize>)
    ensures
        match r {
            Some(i) => i < matches.given.len() && values_for(matches.given@, id@) == Some(
                views(matches.given@[i as int].values@),
            ),
            None => values_for(matches.given@, id@) is None,
        },
{
    let ghost all = matches.given@;
    let mut i: usize = 0;
    assert(all.skip(0) =~= all);
    while i < matches.given.len()
        invariant
            i <= matches.given.len(),
            all == matches.given@,
            values_for(all, id@) == values_for(all.skip(i as int), id@),
        decreases matches.given.len() - i,
    {
        assert(all.skip(i as int)[0] == all[i as int]);
        if same_str(matches.given[i].id.as_str(), id) {
            return Some(i);
        }
        assert(all.skip(i as int).skip(1) =~= all.skip(i + 1));
        i += 1;
    }
    None
}

/// The one value given for the argument `id`.
pub fn get_one(matches: &ParsedArgs, id: &str) -> (r: Option<String>)
    ensures
        view_of(r) == value_for(matches.given@, id@),
{
    match mention(matches, id) {
        Some(i) => {
            let values = &matches.given[i].values;
            if values.len() > 0 {
                Some(values[0].clone())
            } else {
                None
            }
        },
        None => None,
    }
}

/// Puts `SHUTL_` before a name that is already in upper case.
pub fn prefixed(upper: &str) -> (r: String)
    ensures
        r@ == "SHUTL_"@ + upper@,
{
    glue("SHUTL_", upper)
}

/// The name of the environment variable for the argument `name`.
pub fn variable_name(name: &str) -> (r: String)
    ensures
        r@ == env_name(name@),
{
    let plain = string_of(&replaced(&chars_of(name), '-', '_'));
    prefixed(to_uppercase(plain.as_str()).as_str())
}

/// The value of an argument that takes a value.
fn value_or_default(matches: &ParsedArgs, name: &str, cfg: &Config) -> (r: String)
    ensures
        r@ == plain_value(matches.given@, name@, cfg@),
{
    match get_one(matches, name) {
        Some(value) => value,
        None => match &cfg.default {
            Some(default) => default.clone(),
            None => String::new(),
        },
    }
}

/// The value of a boolean flag.
fn flag_value(matches: &ParsedArgs, name: &str, cfg: &Config) -> (r: String)
    ensures
        r@ == bool_value(matches.given@, name@, cfg@),
{
    if given(matches, glue("no-", name).as_str()) {
        "false".to_owned()
    } else if given(matches, name) {
        "true".to_owned()
    } else {
        match &cfg.default {
            Some(default) => default.clone(),
            None => "false".to_owned(),
        }
    }
}

/// All remaining values, with a space between each two.
fn remaining(values: &Vec<String>) -> (r: String)
    ensures
        r@ == join(views(values@), " "@),
{
    let mut parts: Vec<Vec<char>> = Vec::new();
    let mut i: usize = 0;
    assert(views(parts@) =~= views(values@).take(0));
    while i < values.len()
        invariant
            i <= values.len(),
            views(parts@) == views(values@).take(i as int),
        decreases values.len() - i,
    {
        let part = chars_of(values[i].as_str());
        proof {
            lemma_views_push(parts@, part);
            assert(views(values@).take(i + 1) =~= views(values@).take(i as int).push(part@));
        }
        parts.push(part);
        i += 1;
    }
    assert(views(values@).take(values.len() as int) =~= views(values@));
    string_of(&joined(&parts, &chars_of(" ")))
}

/// The environment that carries the given arguments to a script that
/// declares `metadata`: one variable for each declared argument, in the
/// order of the declarations.
pub fn script_environment(metadata: &CommandMetadata, matches: &ParsedArgs) -> (r: Vec<
    (String, String),
>)
    ensures
        views(r@) == environment(metadata@.arguments, matches.given@),
{
    let ghost lines = metadata@.arguments;
    let ghost args = matches.given@;
    let mut r: Vec<(String, String)> = Vec::new();
    let mut i: usize = 0;
    assert(views(r@) =~= environment(lines.take(0), args));
    while i < metadata.arguments.len()
        invariant
            i <= metadata.arguments.len(),
            lines == metadata@.arguments,
            args == matches.given@,
            views(r@) == environment(lines.take(i as int), args),
        decreases metadata.arguments.len() - i,
    {
        let ghost next = lines.take(i + 1);
        let ghost before = r@;
        proof {
            assert(next.take(next.len() - 1) =~= lines.take(i as int));
            assert(next[next.len() - 1] == metadata.arguments@[i as int]@);
        }
        let variable = match &metadata.arguments[i] {
            LineType::Description(_) => None,
            LineType::Positional(name, _, cfg) => {
                let catch_all = match cfg.arg_type {
                    Some(ArgType::CatchAll) => true,
                    _ => false,
                };
                if catch_all {
                    match mention(matches, "additional-args") {
                        Some(at) => Some(
                            (
                                "SHUTL_ADDITIONAL_ARGS".to_owned(),
                                remaining(&matches.given[at].values),
                            ),
                        ),
                        None => None,
                    }
                } else {
                    Some(
                        (variable_name(name.as_str()), value_or_default(matches, name.as_str(), cfg)),
                    )
                }
            },
            LineType::Flag(name, _, cfg) => {
                let boolean = match cfg.arg_type {
                    Some(ArgType::Bool) => true,
                    _ => false,
                };
                let value = if boolean {
                    flag_value(matches, name.as_str(), cfg)
                } else {
                    value_or_default(matches, name.as_str(), cfg)
                };
                Some((variable_name(name.as_str()), value))
            },
        };
        match variable {
            Some(pair) => {
                r.push(pair);
                proof {
                    lemma_views_push(before, pair);
                    assert(views(r@) =~= environment(next, args));
                }
            },
            None => {
                assert(views(r@) =~= environment(next, args));
            },
        }
        i += 1;
    }
    assert(lines.take(metadata.arguments.len() as int) =~= lines);
    r
}

/// Prepares the run of a script: `script_path` is where it lies, `contents`
/// what it holds (`None` where it could not be read, which declares
/// nothing), `matches` what the invocation gave.
pub fn execute_script(script_path: &str, contents: Option<&str>, matches: &ParsedArgs) -> (r:
    Launch)
    ensures
        r.program@ == script_path@,
        views(r.environment@) == environment(
            parsed_metadata(script_path@, view_of(contents)).arguments,
            matches.given@,
        ),
        r.verbose == is_given(matches.given@, "shutlverboseid"@),
{
    let metadata = parse_command_metadata(script_path, contents);
    Launch {
        program: script_path.to_owned(),
        environment: script_environment(&metadata, matches),
        verbose: given(matches, "shutlverboseid"),
    }
}

/// The status with which the program ends after the script has run.
pub fn exit_status(success: bool, code: Option<i32>) -> (r: i32)
    ensures
        r == status_after(success, code),
{
    if success {
        0
    } else {
        match code {
            Some(c) => c,
            None => 1,
        }
    }
}

/// The listing of the directory that the given names lead to, each the
/// name of a directory in the one before; an empty name leads nowhere else.
pub open spec fn listing_at(entries: Seq<Entry>, components: Seq<Seq<char>>) -> Option<Seq<Entry>>
    decreases components.len(),
{
    if components.len() == 0 {
        Some(entries)
    } else if components[0].len() == 0 {
        listing_at(entries, components.skip(1))
    } else {
        match first_match(entries, Match::Directory, components[0]) {
            Some(i) => listing_at(entries[i].entries@, components.skip(1)),
            None => None,
        }
    }
}

/// The path that the given names lead to from `base`.
pub open spec fn path_of(base: Seq<char>, components: Seq<Seq<char>>) -> Seq<char>
    decreases components.len(),
{
    if components.len() == 0 {
        base
    } else {
        join_path(
            path_of(base, components.take(components.len() - 1)),
            components[components.len() - 1],
        )
    }
}

/// The file that the words of an invocation name, below the directory at
/// `base` with the listing `entries`: all words but the last name nested
/// directories; in the last of these, the last word names the entry of that
/// name, or else the first entry, not a directory, whose name begins with
/// it. An empty last word names that directory itself.
pub open spec fn found_script(
    base: Seq<char>,
    entries: Seq<Entry>,
    components: Seq<Seq<char>>,
) -> Option<Seq<char>> {
    let parents = components.take(components.len() - 1);
    let word = components[components.len() - 1];
    let dir = path_of(base, parents);
    match listing_at(entries, parents) {
        Some(listing) => if word.len() == 0 || first_match(listing, Match::Name, word) is Some {
            Some(join_path(dir, word))
        } else {
            match first_match(listing, Match::Prefix, word) {
                Some(i) => Some(join_path(dir, listing[i].name@)),
                None => None,
            }
        },
        None => None,
    }
}

/// Finds the file that the words of an invocation name, below the
/// directory at `base_dir` with the listing `entries`.
pub fn find_script_file_in_dir(components: &Vec<String>, base_dir: &str, entries: &Vec<Entry>) -> (r:
    Option<String>)
    requires
        components.len() > 0,
    ensures
        view_of(r) == found_script(base_dir@, entries@, views(components@)),
{
    let ghost all = views(components@);
    let ghost parents = all.take(all.len() - 1);
    let last = components.len() - 1;
    let mut listing: &Vec<Entry> = entries;
    let mut dir = base_dir.to_owned();
    let mut k: usize = 0;
    proof {
        assert(parents.skip(0) =~= parents);
        assert(parents.take(0) =~= Seq::<Seq<char>>::empty());
    }
    while k < last
        invariant
            k <= last == components.len() - 1,
            all == views(components@),
            parents == all.take(all.len() - 1),
            listing_at(entries@, parents) == listing_at(listing@, parents.skip(k as int)),
            dir@ == path_of(base_dir@, parents.take(k as int)),
        decreases last - k,
    {
        let word = components[k].as_str();
        proof {
            assert(parents.skip(k as int)[0] == word@);
            assert(parents.skip(k as int).skip(1) =~= parents.skip(k + 1));
            let next = parents.take(k + 1);
            assert(next.take(next.len() - 1) =~= parents.take(k as int));
            assert(next[next.len() - 1] == word@);
        }
        if chars_of(word).len() > 0 {
            match find_entry(listing, Match::Directory, word) {
                Some(i) => {
                    listing = &listing[i].entries;
                },
                None => {
                    return None;
                },
            }
        }
        dir = path_in(dir.as_str(), word);
        k += 1;
    }
    proof {
        assert(parents.skip(last as int) =~= Seq::<Seq<char>>::empty());
        assert(parents.take(last as int) =~= parents);
    }
    let word = components[last].as_str();
    if chars_of(word).len() == 0 || find_entry(listing, Match::Name, word).is_some() {
        return Some(path_in(dir.as_str(), word));
    }
    match find_entry(listing, Match::Prefix, word) {
        Some(i) => Some(path_in(dir.as_str(), listing[i].name.as_str())),
        None => None,
    }
}

/// Finds the file that the words of an invocation name, below the
/// directory of the scripts at `scripts_dir` with the listing `entries`.
pub fn find_script_file(components: &Vec<String>, scripts_dir: &str, entries: &Vec<Entry>) -> (r:
    Option<String>)
    requires
        components.len() > 0,
    ensures
        view_of(r) == found_script(scripts_dir@, entries@, views(components@)),
{
    find_script_file_in_dir(components, scripts_dir, entries)
}

} // verus!
