//! The interface that a script declares in the comment block at its top:
//! a description, and the positional arguments and flags it takes.

use crate::text::{
    after_leading, after_prefix, chars_of, ends_with, first_index, index_from, is_text,
    lemma_first_index, lemma_views_push, slice, split, split_at_first, split_on, split_once,
    starts_with, string_of, strip_leading, strip_prefix, trim, trim_char, trimmed, trimmed_of,
    view_of, views,
};
use vstd::prelude::*;

verus! {

/// What a script declares about itself.
#[derive(Debug, Clone, PartialEq)]
pub struct CommandMetadata {
    pub description: String,
    pub arguments: Vec<LineType>,
}

/// One declaration of the comment block.
#[derive(Debug, Clone, PartialEq)]
pub enum LineType {
    Description(String),
    Flag(String, String, Config),
    Positional(String, String, Config),
}

/// The kind of value an argument takes, where it is not plain text.
#[derive(Debug, Clone, Copy, PartialEq, Eq, Structural)]
pub enum ArgType {
    CatchAll,
    Bool,
    File,
    Dir,
    Path,
}

/// Where completion of a path argument starts.
#[derive(Debug, Clone, PartialEq)]
pub struct CompleteOptions {
    pub path: String,
    pub extensions: Vec<String>,
}

/// The attributes of one argument.
#[derive(Debug, Clone, PartialEq)]
pub struct Config {
    pub default: Option<String>,
    pub arg_type: Option<ArgType>,
    pub options: Vec<String>,
    pub complete_options: Option<CompleteOptions>,
    pub required: bool,
}

/// `CompleteOptions` as a mathematical value.
pub struct CompleteOptionsView {
    pub path: Seq<char>,
    pub extensions: Seq<Seq<char>>,
}

/// `Config` as a mathematical value.
pub struct ConfigView {
    pub default: Option<Seq<char>>,
    pub arg_type: Option<ArgType>,
    pub options: Seq<Seq<char>>,
    pub complete_options: Option<CompleteOptionsView>,
    pub required: bool,
}

/// `LineType` as a mathematical value.
pub enum LineView {
    Description(Seq<char>),
    Flag(Seq<char>, Seq<char>, ConfigView),
    Positional(Seq<char>, Seq<char>, ConfigView),
}

/// `CommandMetadata` as a mathematical value.
pub struct MetadataView {
    pub description: Seq<char>,
    pub arguments: Seq<LineView>,
}

impl View for CompleteOptions {
    type V = CompleteOptionsView;

    open spec fn view(&self) -> CompleteOptionsView {
        CompleteOptionsView { path: self.path@, extensions: views(self.extensions@) }
    }
}

impl View for Config {
    type V = ConfigView;

    open spec fn view(&self) -> ConfigView {
        ConfigView {
            default: view_of(self.default),
            arg_type: self.arg_type,
            options: views(self.options@),
            complete_options: view_of(self.complete_options),
            required: self.required,
        }
    }
}

impl View for LineType {
    type V = LineView;

    open spec fn view(&self) -> LineView {
        match self {
            LineType::Description(d) => LineView::Description(d@),
            LineType::Flag(n, d, c) => LineView::Flag(n@, d@, c@),
            LineType::Positional(n, d, c) => LineView::Positional(n@, d@, c@),
        }
    }
}

impl View for CommandMetadata {
    type V = MetadataView;

    open spec fn view(&self) -> MetadataView {
        MetadataView { description: self.description@, arguments: views(self.arguments@) }
    }
}

impl ConfigView {
    /// No default, no kind, no options, no completion root, not required.
    pub open spec fn empty() -> ConfigView {
        ConfigView {
            default: None,
            arg_type: None,
            options: Seq::empty(),
            complete_options: None,
            required: false,
        }
    }
}

impl MetadataView {
    /// No description and no arguments.
    pub open spec fn empty() -> MetadataView {
        MetadataView { description: Seq::empty(), arguments: Seq::empty() }
    }
}

impl Default for CompleteOptions {
    fn default() -> (r: CompleteOptions)
        ensures
            r@ == (CompleteOptionsView { path: Seq::empty(), extensions: Seq::empty() }),
    {
        let r = CompleteOptions { path: String::new(), extensions: Vec::new() };
        assert(views(r.extensions@) =~= Seq::empty());
        r
    }
}

impl Default for Config {
    fn default() -> (r: Config)
        ensures
            r@ == ConfigView::empty(),
    {
        let r = Config {
            default: None,
            arg_type: None,
            options: Vec::new(),
            complete_options: None,
            required: false,
        };
        assert(views(r.options@) =~= Seq::empty());
        r
    }
}

impl Default for CommandMetadata {
    fn default() -> (r: CommandMetadata)
        ensures
            r@ == MetadataView::empty(),
    {
        let r = CommandMetadata { description: String::new(), arguments: Vec::new() };
        assert(views(r.arguments@) =~= Seq::empty());
        r
    }
}

/// Each piece without the white space around it.
pub open spec fn trim_all(pieces: Seq<Seq<char>>) -> Seq<Seq<char>> {
    Seq::new(pieces.len(), |i: int| trim(pieces[i]))
}

/// The two sides of the first `delim` in `s`; all of `s` and nothing, where
/// there is none.
pub open spec fn halves(s: Seq<char>, delim: char) -> (Seq<char>, Seq<char>) {
    match split_once(s, seq![delim]) {
        Some(pair) => pair,
        None => (s, Seq::empty()),
    }
}

/// A description and the attributes written in square brackets inside it:
/// what stands before the first `[`, trimmed, and the trimmed pieces between
/// that bracket and the first `]` after it, split at commas. Where no such
/// pair of brackets is found, the text as it is and no attributes.
pub open spec fn extracted(description: Seq<char>) -> (Seq<char>, Seq<Seq<char>>) {
    match first_index(description, '[') {
        Some(start) => match first_index(description.skip(start), ']') {
            Some(end) => (
                trim(description.take(start)),
                trim_all(split(description.subrange(start + 1, start + end), ',')),
            ),
            None => (description, Seq::empty()),
        },
        None => (description, Seq::empty()),
    }
}

/// Whether an option is written between two `!`, which makes it the default.
pub open spec fn is_marked(option: Seq<char>) -> bool {
    option.len() > 0 && option[0] == '!' && option[option.len() - 1] == '!'
}

/// The first marked option: the first among all but the last, or else the
/// last, where it is marked.
pub open spec fn first_marked(options: Seq<Seq<char>>) -> Option<Seq<char>>
    decreases options.len(),
{
    if options.len() == 0 {
        None
    } else {
        let last = options[options.len() - 1];
        match first_marked(options.take(options.len() - 1)) {
            Some(marked) => Some(marked),
            None => if is_marked(last) {
                Some(last)
            } else {
                None
            },
        }
    }
}

/// The options, the marked ones without their marks.
pub open spec fn unmarked(options: Seq<Seq<char>>) -> Seq<Seq<char>> {
    Seq::new(
        options.len(),
        |i: int| if is_marked(options[i]) { trim_char(options[i], '!') } else { options[i] },
    )
}

/// The kind that a key names, if it names one of the path kinds.
pub open spec fn path_kind(key: Seq<char>) -> Option<ArgType> {
    if key == "dir"@ {
        Some(ArgType::Dir)
    } else if key == "file"@ {
        Some(ArgType::File)
    } else if key == "path"@ {
        Some(ArgType::Path)
    } else {
        None
    }
}

/// The attributes after one more attribute has been read. An attribute is a
/// key, optionally followed by `:` and a value; an unknown key changes
/// nothing.
pub open spec fn with_annotation(cfg: ConfigView, annotation: Seq<char>) -> ConfigView {
    let (raw_key, raw_value) = halves(trim(annotation), ':');
    let key = trim(raw_key);
    let value = trim(raw_value);
    if key == "default"@ {
        ConfigView { default: Some(value), ..cfg }
    } else if key == "required"@ {
        ConfigView { required: true, ..cfg }
    } else if key == "bool"@ {
        ConfigView { arg_type: Some(ArgType::Bool), ..cfg }
    } else if path_kind(key) is Some {
        ConfigView {
            arg_type: path_kind(key),
            complete_options: if value.len() > 0 {
                Some(CompleteOptionsView { path: value, extensions: Seq::empty() })
            } else {
                cfg.complete_options
            },
            ..cfg
        }
    } else if key == "options"@ {
        let options = trim_all(split(raw_value, '|'));
        ConfigView {
            default: match first_marked(options) {
                Some(marked) => Some(trim_char(marked, '!')),
                None => cfg.default,
            },
            options: unmarked(options),
            ..cfg
        }
    } else {
        cfg
    }
}

/// The attributes after the given ones have been read from left to right.
pub open spec fn with_annotations(cfg: ConfigView, annotations: Seq<Seq<char>>) -> ConfigView
    decreases annotations.len(),
{
    if annotations.len() == 0 {
        cfg
    } else {
        with_annotation(
            with_annotations(cfg, annotations.take(annotations.len() - 1)),
            annotations[annotations.len() - 1],
        )
    }
}

/// What a list of attributes says; nothing, where the list is empty.
pub open spec fn parsed_annotations(annotations: Seq<Seq<char>>) -> Option<ConfigView> {
    if annotations.len() == 0 {
        None
    } else {
        Some(with_annotations(ConfigView::empty(), annotations))
    }
}

/// The name under which the argument that takes all remaining values is kept.
pub open spec fn catch_all_name() -> Seq<char> {
    "additional-arguments"@
}

/// Name, description and attributes of an argument declared as `name` and
/// the text `rest` after the separator. The name `...` declares the argument
/// that takes all remaining values; it has no attributes.
pub open spec fn parsed_argument(name: Seq<char>, rest: Seq<char>) -> (
    Seq<char>,
    Seq<char>,
    ConfigView,
) {
    if name == "..."@ {
        (
            catch_all_name(),
            trim(rest),
            ConfigView { arg_type: Some(ArgType::CatchAll), ..ConfigView::empty() },
        )
    } else {
        let (description, annotations) = extracted(rest);
        (
            name,
            trim(description),
            match parsed_annotations(annotations) {
                Some(cfg) => cfg,
                None => ConfigView::empty(),
            },
        )
    }
}

/// Name and remaining text of a declaration that `keyword` introduces:
/// after the keyword, the trimmed text is split at its first ` - `.
pub open spec fn declared(line: Seq<char>, keyword: Seq<char>) -> Option<(Seq<char>, Seq<char>)> {
    match strip_prefix(line, keyword) {
        Some(body) => split_once(trim(body), " - "@),
        None => None,
    }
}

/// What one line of the comment block declares, the comment marker taken
/// off: a description, a flag, a positional argument, or nothing.
pub open spec fn parsed_line(line: Seq<char>) -> Option<LineView> {
    match strip_prefix(line, "description:"@) {
        Some(text) => Some(LineView::Description(trim(text))),
        None => match declared(line, "flag:"@) {
            Some((name, rest)) => {
                let (n, d, c) = parsed_argument(name, rest);
                Some(LineView::Flag(n, d, c))
            },
            None => match declared(line, "arg:"@) {
                Some((name, rest)) => {
                    let (n, d, c) = parsed_argument(name, rest);
                    Some(LineView::Positional(n, d, c))
                },
                None => None,
            },
        },
    }
}

/// Whether the last component of `path` has the extension `js`.
pub open spec fn is_javascript(path: Seq<char>) -> bool {
    let suffix = ".js"@;
    path.len() > suffix.len() && suffix.is_suffix_of(path) && path[path.len() - suffix.len() - 1]
        != '/'
}

/// The marker that begins each line of the comment block of the file at
/// `path`.
pub open spec fn comment_prefix(path: Seq<char>) -> Seq<char> {
    if is_javascript(path) {
        "//@"@
    } else {
        "#@"@
    }
}

/// The lines of a text: what stands between its line feeds.
pub open spec fn lines_of(content: Seq<char>) -> Seq<Seq<char>> {
    split(content, '\n')
}

/// The line at which the comment block begins: the second, where the first
/// is an interpreter directive.
pub open spec fn header_start(lines: Seq<Seq<char>>) -> int {
    if lines.len() > 0 && "#!"@.is_prefix_of(lines[0]) {
        1
    } else {
        0
    }
}

/// The metadata after one more declaration; a description replaces the one
/// before it.
pub open spec fn with_line(metadata: MetadataView, declaration: Option<LineView>) -> MetadataView {
    match declaration {
        Some(LineView::Description(text)) => MetadataView { description: text, ..metadata },
        Some(other) => MetadataView { arguments: metadata.arguments.push(other), ..metadata },
        None => metadata,
    }
}

/// The metadata after the lines from `i` on have been read, up to the first
/// that does not begin with `prefix`.
pub open spec fn scanned(
    lines: Seq<Seq<char>>,
    prefix: Seq<char>,
    i: int,
    metadata: MetadataView,
) -> MetadataView
    decreases lines.len() - i,
{
    if 0 <= i < lines.len() && prefix.is_prefix_of(lines[i]) {
        scanned(
            lines,
            prefix,
            i + 1,
            with_line(metadata, parsed_line(trim(strip_leading(lines[i], prefix)))),
        )
    } else {
        metadata
    }
}

/// What the file at `path` declares, given its content; nothing, where the
/// content could not be read.
pub open spec fn parsed_metadata(path: Seq<char>, content: Option<Seq<char>>) -> MetadataView {
    match content {
        Some(text) => {
            let lines = lines_of(text);
            scanned(lines, comment_prefix(path), header_start(lines), MetadataView::empty())
        },
        None => MetadataView::empty(),
    }
}


/// Splits `s` at its first `delim`; without one, the right side is empty.
pub fn split_once_or_all<'a>(s: &'a str, delim: char) -> (r: (&'a str, &'a str))
    ensures
        (r.0@, r.1@) == halves(s@, delim),
{
    let v = chars_of(s);
    proof {
        assert(v@.skip(0) =~= v@);
        lemma_first_index(v@, delim);
        assert(seq![delim].len() == 1);
    }
    match index_from(&v, delim, 0) {
        Some(i) => {
            let left = s.substring_char(0, i);
            let right = s.substring_char(i + 1, v.len());
            proof {
                assert(left@ =~= s@.take(i as int));
                assert(right@ =~= s@.skip(i + 1));
            }
            (left, right)
        },
        None => {
            let right = s.substring_char(0, 0);
            assert(right@ =~= Seq::<char>::empty());
            (s, right)
        },
    }
}

/// The strings made of the given pieces, each trimmed.
fn trimmed_strings(pieces: &Vec<Vec<char>>) -> (r: Vec<String>)
    ensures
        views(r@) == trim_all(views(pieces@)),
{
    let mut r: Vec<String> = Vec::new();
    let mut i: usize = 0;
    while i < pieces.len()
        invariant
            i <= pieces.len(),
            views(r@) == trim_all(views(pieces@)).take(i as int),
        decreases pieces.len() - i,
    {
        let t = trimmed(&pieces[i]);
        let text = string_of(&t);
        proof {
            lemma_views_push(r@, text);
            assert(trim_all(views(pieces@)).take(i + 1) =~= trim_all(views(pieces@)).take(
                i as int,
            ).push(text@));
        }
        r.push(text);
        i += 1;
    }
    assert(trim_all(views(pieces@)).take(pieces.len() as int) =~= trim_all(views(pieces@)));
    r
}

/// Takes the bracketed attributes out of a description.
pub fn extract_annotations(description: &str) -> (r: (String, Vec<String>))
    ensures
        (r.0@, views(r.1@)) == extracted(description@),
{
    let v = chars_of(description);
    let no_annotations: Vec<String> = Vec::new();
    proof {
        assert(v@.skip(0) =~= v@);
        assert(views(no_annotations@) =~= Seq::<Seq<char>>::empty());
    }
    match index_from(&v, '[', 0) {
        Some(start) => match index_from(&v, ']', start) {
            Some(close) => {
                proof {
                    lemma_first_index(v@, '[');
                    lemma_first_index(v@.skip(start as int), ']');
                    assert(v@.skip(start as int)[close - start] == v@[close as int]);
                }
                let before = slice(&v, 0, start);
                let inside = slice(&v, start + 1, close);
                assert(before@ =~= v@.take(start as int));
                let pieces = split_on(&inside, ',');
                let annotations = trimmed_strings(&pieces);
                (string_of(&trimmed(&before)), annotations)
            },
            None => (string_of(&v), no_annotations),
        },
        None => (string_of(&v), no_annotations),
    }
}

/// The kind that a key names, if it names one of the path kinds.
fn kind_of_path(key: &Vec<char>) -> (r: Option<ArgType>)
    ensures
        r == path_kind(key@),
{
    if is_text(key, "dir") {
        Some(ArgType::Dir)
    } else if is_text(key, "file") {
        Some(ArgType::File)
    } else if is_text(key, "path") {
        Some(ArgType::Path)
    } else {
        None
    }
}

/// Whether an option is written between two `!`.
fn has_marks(option: &Vec<char>) -> (r: bool)
    ensures
        r == is_marked(option@),
{
    option.len() > 0 && option[0] == '!' && option[option.len() - 1] == '!'
}

/// Reads the value of an `options` attribute: the options it lists, and
/// the default that a marked one sets.
fn read_options(value: &Vec<char>) -> (r: (Vec<String>, Option<String>))
    ensures
        views(r.0@) == unmarked(trim_all(split(value@, '|'))),
        view_of(r.1) == match first_marked(trim_all(split(value@, '|'))) {
            Some(marked) => Some(trim_char(marked, '!')),
            None => None,
        },
{
    let pieces = split_on(value, '|');
    let ghost all = trim_all(split(value@, '|'));
    let mut options: Vec<String> = Vec::new();
    let mut default: Option<String> = None;
    let mut i: usize = 0;
    assert(unmarked(all.take(0)) =~= views(options@));
    while i < pieces.len()
        invariant
            i <= pieces.len(),
            views(pieces@) == split(value@, '|'),
            all == trim_all(split(value@, '|')),
            views(options@) == unmarked(all.take(i as int)),
            view_of(default) == match first_marked(all.take(i as int)) {
                Some(marked) => Some(trim_char(marked, '!')),
                None => None,
            },
        decreases pieces.len() - i,
    {
        let option = trimmed(&pieces[i]);
        let ghost next = all.take(i + 1);
        proof {
            assert(next.take(next.len() - 1) =~= all.take(i as int));
            assert(next[next.len() - 1] == option@);
        }
        let text = if has_marks(&option) {
            let bare = trimmed_of(&option, '!');
            if default.is_none() {
                default = Some(string_of(&bare));
            }
            string_of(&bare)
        } else {
            string_of(&option)
        };
        proof {
            lemma_views_push(options@, text);
            assert(unmarked(next) =~= unmarked(all.take(i as int)).push(text@));
        }
        options.push(text);
        i += 1;
    }
    assert(all.take(pieces.len() as int) =~= all);
    (options, default)
}

/// Reads one attribute into the attributes read so far.
fn apply_annotation(cfg: Config, annotation: &str) -> (r: Config)
    ensures
        r@ == with_annotation(cfg@, annotation@),
{
    let whole = string_of(&trimmed(&chars_of(annotation)));
    let (left, right) = split_once_or_all(whole.as_str(), ':');
    let raw_key = chars_of(left);
    let raw_value = chars_of(right);
    let key = trimmed(&raw_key);
    let value = trimmed(&raw_value);
    let mut cfg = cfg;
    if is_text(&key, "default") {
        cfg.default = Some(string_of(&value));
    } else if is_text(&key, "required") {
        cfg.required = true;
    } else if is_text(&key, "bool") {
        cfg.arg_type = Some(ArgType::Bool);
    } else if let Some(kind) = kind_of_path(&key) {
        cfg.arg_type = Some(kind);
        if value.len() > 0 {
            let extensions: Vec<String> = Vec::new();
            assert(views(extensions@) =~= Seq::<Seq<char>>::empty());
            cfg.complete_options = Some(CompleteOptions { path: string_of(&value), extensions });
        }
    } else if is_text(&key, "options") {
        let (options, default) = read_options(&raw_value);
        cfg.options = options;
        if default.is_some() {
            cfg.default = default;
        }
    }
    cfg
}

/// Reads a list of attributes from left to right; a later one overrides an
/// earlier one. An empty list gives nothing.
pub fn parse_annotations(annotations: Vec<String>) -> (r: Option<Config>)
    ensures
        view_of(r) == parsed_annotations(views(annotations@)),
{
    if annotations.len() == 0 {
        return None;
    }
    let ghost all = views(annotations@);
    let mut cfg = Config::default();
    let mut i: usize = 0;
    while i < annotations.len()
        invariant
            i <= annotations.len(),
            all == views(annotations@),
            cfg@ == with_annotations(ConfigView::empty(), all.take(i as int)),
        decreases annotations.len() - i,
    {
        proof {
            let next = all.take(i + 1);
            assert(next.take(next.len() - 1) =~= all.take(i as int));
            assert(next[next.len() - 1] == annotations@[i as int]@);
        }
        cfg = apply_annotation(cfg, annotations[i].as_str());
        i += 1;
    }
    assert(all.take(annotations.len() as int) =~= all);
    Some(cfg)
}

/// Reads the declaration of one argument: its name, and the text after the
/// separator, which holds the description and the attributes.
pub fn parse_argument(name: &str, rest: &str) -> (r: (String, String, Config))
    ensures
        (r.0@, r.1@, r.2@) == parsed_argument(name@, rest@),
{
    if is_text(&chars_of(name), "...") {
        let mut cfg = Config::default();
        cfg.arg_type = Some(ArgType::CatchAll);
        let description = string_of(&trimmed(&chars_of(rest)));
        return ("additional-arguments".to_owned(), description, cfg);
    }
    let (description, annotations) = extract_annotations(rest);
    let clean = string_of(&trimmed(&chars_of(description.as_str())));
    let cfg = match parse_annotations(annotations) {
        Some(cfg) => cfg,
        None => Config::default(),
    };
    (name.to_owned(), clean, cfg)
}

/// Name and remaining text of a declaration that `keyword` introduces.
fn declaration(line: &Vec<char>, keyword: &str) -> (r: Option<(String, String)>)
    ensures
        match r {
            Some((name, rest)) => declared(line@, keyword@) == Some((name@, rest@)),
            None => declared(line@, keyword@) is None,
        },
{
    match after_prefix(line, &chars_of(keyword)) {
        Some(body) => match split_at_first(&trimmed(&body), &chars_of(" - ")) {
            Some((name, rest)) => Some((string_of(&name), string_of(&rest))),
            None => None,
        },
        None => None,
    }
}

/// Reads one line of the comment block, the comment marker taken off.
pub fn parse_line(line: &str) -> (r: Option<LineType>)
    ensures
        view_of(r) == parsed_line(line@),
{
    let v = chars_of(line);
    if let Some(text) = after_prefix(&v, &chars_of("description:")) {
        return Some(LineType::Description(string_of(&trimmed(&text))));
    }
    if let Some((name, rest)) = declaration(&v, "flag:") {
        let (n, d, c) = parse_argument(name.as_str(), rest.as_str());
        return Some(LineType::Flag(n, d, c));
    }
    if let Some((name, rest)) = declaration(&v, "arg:") {
        let (n, d, c) = parse_argument(name.as_str(), rest.as_str());
        return Some(LineType::Positional(n, d, c));
    }
    None
}

/// The marker that begins each line of the comment block of the file at
/// `path`.
fn prefix_for(path: &str) -> (r: Vec<char>)
    ensures
        r@ == comment_prefix(path@),
{
    let v = chars_of(path);
    let suffix = chars_of(".js");
    let n = v.len();
    let m = suffix.len();
    if n > m && ends_with(&v, &suffix) && v[n - m - 1] != '/' {
        chars_of("//@")
    } else {
        chars_of("#@")
    }
}

/// Reads what a script declares in the comment block at its top. `path` is
/// where the script lies, `contents` what it holds; `None` stands for a file
/// that could not be read, which declares nothing.
pub fn parse_command_metadata(path: &str, contents: Option<&str>) -> (r: CommandMetadata)
    ensures
        r@ == parsed_metadata(path@, view_of(contents)),
{
    let mut metadata = CommandMetadata::default();
    let text = match contents {
        Some(text) => text,
        None => {
            return metadata;
        },
    };
    let lines = split_on(&chars_of(text), '\n');
    let prefix = prefix_for(path);
    let shebang = chars_of("#!");
    let mut i: usize = if lines.len() > 0 && starts_with(&lines[0], &shebang) {
        1
    } else {
        0
    };
    let ghost all = views(lines@);
    let ghost start = i as int;
    while i < lines.len() && starts_with(&lines[i], &prefix)
        invariant
            i <= lines.len() || (i == 1 && lines.len() == 0),
            all == views(lines@),
            scanned(all, prefix@, start, MetadataView::empty()) == scanned(
                all,
                prefix@,
                i as int,
                metadata@,
            ),
        decreases lines.len() - i,
    {
        let line = trimmed(&after_leading(&lines[i], &prefix));
        let ghost before = metadata@;
        match parse_line(string_of(&line).as_str()) {
            Some(LineType::Description(text)) => {
                metadata.description = text;
            },
            Some(other) => {
                proof {
                    lemma_views_push(metadata.arguments@, other);
                }
                metadata.arguments.push(other);
            },
            None => {},
        }
        assert(metadata@ == with_line(
            before,
            parsed_line(trim(strip_leading(all[i as int], prefix@))),
        ));
        i += 1;
    }
    metadata
}

/// Reading the same content twice gives the same metadata.
pub proof fn parsing_is_repeatable(
    path: Seq<char>,
    content: Option<Seq<char>>,
    first: MetadataView,
    second: MetadataView,
)
    requires
        first == parsed_metadata(path, content),
        second == parsed_metadata(path, content),
    ensures
        first == second,
{
}

} // verus!
