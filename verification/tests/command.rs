use shutl::command::{
    active_arguments, add_dir_subcommands, build_cli_command, build_command_tree,
    build_script_command, commands_for_dir, declared, dir_command, is_script_file,
    next_directory, with_expanded_root, with_root, ArgAction, ArgSpec, CommandNode,
    CommandWithPath, PathCompletion, PathKind,
};
use shutl::listing::{Entry, EntryKind};
use shutl::metadata::parse_command_metadata;
use shutl::script::find_script_file_in_dir;

fn text(s: &str) -> String {
    s.to_string()
}

fn words(list: &[&str]) -> Vec<String> {
    list.iter().map(|s| s.to_string()).collect()
}

fn script(name: &str, content: &str) -> Entry {
    Entry {
        name: text(name),
        kind: EntryKind::File,
        executable: true,
        text: Some(text(content)),
        entries: vec![],
    }
}

fn plain_file(name: &str, content: &str) -> Entry {
    Entry {
        executable: false,
        ..script(name, content)
    }
}

fn dir(name: &str, entries: Vec<Entry>) -> Entry {
    Entry {
        name: text(name),
        kind: EntryKind::Directory,
        executable: true,
        text: None,
        entries,
    }
}

fn find<'a>(commands: &'a [CommandWithPath], name: &str) -> Option<&'a CommandWithPath> {
    commands.iter().find(|c| c.command.name == name)
}

fn validate_arg(
    args: &Vec<ArgSpec>,
    name: &str,
    description: &str,
    is_required: bool,
    default: Option<String>,
    options: Option<Vec<String>>,
) {
    let arg = args.iter().find(|a| a.id == name).unwrap();
    if is_required {
        assert!(arg.required);
    } else {
        assert!(!arg.required);
    }
    assert_eq!(arg.help, description);
    assert_eq!(arg.id, name);
    if let Some(default) = default {
        assert_eq!(arg.default_value, Some(default));
    }
    if let Some(options) = options {
        assert_eq!(arg.possible_values.len(), options.len());
        for option in options {
            assert!(arg.possible_values.iter().any(|v| *v == option));
        }
    }
}

#[test]
fn test_build_script_command_full() {
    let script_content = "#!/bin/bash
#@description: test script
#@arg:pos - positional [required]
#@arg:pos-default - positional with default [default:default]
#@arg:pos-dir - positional with dir [dir:~/]
#@arg:pos-file - positional with file [file:~/]
#@arg:pos-any - positional with path [any:~/]
#@flag:flag - flag
#@flag:flag-bool - flag bool [bool]
#@flag:flag-bool-true - flag bool with default true [bool,default:true]
#@flag:flag-bool-false - flag bool with default false [bool,default:false]
#@flag:flag-dir - flag with dir [dir:~/]
#@flag:flag-file - flag with file [file:~/]
#@flag:flag-any - flag with path [any:~/]
#@flag:flag-options - flag with options [options:one|two|three]
#@flag:flag-options-default - flag with options and default [default:one, options:one|two|three]
#@flag:flag-options-default-exclamation - flag with options and default using exclamation mark [options:!one!|two|three]
#@flag:flag-required - flag required [required]
#@arg:... - Additional arguments
";

    let cmd_with_path = build_script_command("test".to_string(), "test.sh", Some(script_content));

    assert_eq!(cmd_with_path.command.name, "test");
    assert_eq!(cmd_with_path.file_path, "test.sh");
    assert_eq!(cmd_with_path.command.description, Some(text("test script")));
    assert!(cmd_with_path.command.children.is_empty());

    let args = &cmd_with_path.command.arguments;
    assert_eq!(args.len(), 21);

    validate_arg(args, "pos", "positional", true, None, None);
    validate_arg(
        args,
        "pos-default",
        "positional with default",
        false,
        Some("default".to_string()),
        None,
    );
    validate_arg(args, "pos-dir", "positional with dir", true, None, None);
    validate_arg(args, "pos-file", "positional with file", true, None, None);
    validate_arg(args, "pos-any", "positional with path", true, None, None);
    validate_arg(args, "flag", "flag", false, None, None);
    validate_arg(args, "flag-bool", "flag bool", false, None, None);
    validate_arg(
        args,
        "flag-bool-true",
        "flag bool with default true",
        false,
        None,
        None,
    );
    validate_arg(
        args,
        "flag-bool-false",
        "flag bool with default false",
        false,
        None,
        None,
    );
    validate_arg(
        args,
        "no-flag-bool",
        "Disable the 'flag-bool' flag",
        false,
        None,
        None,
    );
    validate_arg(
        args,
        "no-flag-bool-true",
        "Disable the 'flag-bool-true' flag",
        false,
        None,
        None,
    );
    validate_arg(
        args,
        "no-flag-bool-false",
        "Disable the 'flag-bool-false' flag",
        false,
        None,
        None,
    );
    validate_arg(args, "flag-dir", "flag with dir", false, None, None);
    validate_arg(args, "flag-file", "flag with file", false, None, None);
    validate_arg(args, "flag-any", "flag with path", false, None, None);
    validate_arg(
        args,
        "flag-options",
        "flag with options",
        false,
        None,
        Some(vec![
            "one".to_string(),
            "two".to_string(),
            "three".to_string(),
        ]),
    );
    validate_arg(
        args,
        "flag-options-default",
        "flag with options and default",
        false,
        Some("one".to_string()),
        Some(vec![
            "one".to_string(),
            "two".to_string(),
            "three".to_string(),
        ]),
    );
    validate_arg(
        args,
        "flag-options-default-exclamation",
        "flag with options and default using exclamation mark",
        false,
        Some("one".to_string()),
        Some(vec![
            "one".to_string(),
            "two".to_string(),
            "three".to_string(),
        ]),
    );
    validate_arg(args, "flag-required", "flag required", true, None, None);
    validate_arg(
        args,
        "additional-args",
        "Additional arguments",
        false,
        None,
        None,
    );
}

#[test]
fn test_build_script_command() {
    let script_content = "#!/bin/bash
#@description: Test command
#@arg:input - Input file
#@flag:verbose - Enable verbose output [bool]
";

    let cmd_with_path = build_script_command("test".to_string(), "test.sh", Some(script_content));

    assert_eq!(cmd_with_path.command.name, "test");
    assert_eq!(cmd_with_path.command.description, Some(text("Test command")));

    let args = &cmd_with_path.command.arguments;
    assert_eq!(args.len(), 4);

    let input_arg = args.iter().find(|a| a.id == "input").unwrap();
    assert!(input_arg.required);
    assert_eq!(input_arg.help, "Input file");

    let verbose_arg = args.iter().find(|a| a.id == "verbose").unwrap();
    assert!(!verbose_arg.required);
    assert_eq!(verbose_arg.help, "Enable verbose output");

    let no_verbose_arg = args.iter().find(|a| a.id == "no-verbose").unwrap();
    assert!(!no_verbose_arg.required);
    assert_eq!(no_verbose_arg.help, "Disable the 'verbose' flag");
}

#[test]
fn script_command_lists_each_argument_exactly() {
    let content = "#@arg:src - Source [file:~/in]\n#@flag:force - Overwrite [bool,required]\n#@flag:mode - Mode [options:!fast!|slow]\n#@arg:... - Rest\n";
    let built = build_script_command(text("copy"), "/s/copy.sh", Some(content));
    assert_eq!(built.command.description, None);
    let none: Vec<String> = vec![];
    assert_eq!(
        built.command.arguments,
        vec![
            ArgSpec {
                id: text("shutlverboseid"),
                help: text("Print verbose information about the command"),
                long: Some(text("shutl-verbose")),
                action: ArgAction::SetTrue,
                required: false,
                default_value: None,
                possible_values: none.clone(),
                completion: None,
            },
            ArgSpec {
                id: text("src"),
                help: text("Source"),
                long: None,
                action: ArgAction::Store,
                required: true,
                default_value: None,
                possible_values: none.clone(),
                completion: Some(PathCompletion {
                    kind: PathKind::File,
                    root: Some(text("~/in")),
                }),
            },
            ArgSpec {
                id: text("no-force"),
                help: text("Disable the 'force' flag"),
                long: Some(text("no-force")),
                action: ArgAction::SetTrue,
                required: false,
                default_value: None,
                possible_values: none.clone(),
                completion: None,
            },
            ArgSpec {
                id: text("force"),
                help: text("Overwrite"),
                long: Some(text("force")),
                action: ArgAction::SetTrue,
                required: true,
                default_value: None,
                possible_values: none.clone(),
                completion: None,
            },
            ArgSpec {
                id: text("mode"),
                help: text("Mode"),
                long: Some(text("mode")),
                action: ArgAction::Store,
                required: false,
                default_value: Some(text("fast")),
                possible_values: vec![text("fast"), text("slow")],
                completion: None,
            },
            ArgSpec {
                id: text("additional-args"),
                help: text("Rest"),
                long: None,
                action: ArgAction::Append,
                required: false,
                default_value: None,
                possible_values: none,
                completion: None,
            },
        ]
    );
}

#[test]
fn default_satisfies_required() {
    let metadata =
        parse_command_metadata("x.sh", Some("#@flag:out - Output [dir,required,default:./out]\n"));
    let args = declared(&metadata);
    assert_eq!(args.len(), 1);
    assert_eq!(args[0].id, "out");
    assert!(!args[0].required);
    assert_eq!(args[0].default_value, Some(text("./out")));
    assert_eq!(
        args[0].completion,
        Some(PathCompletion {
            kind: PathKind::Dir,
            root: None
        })
    );

    let bare = parse_command_metadata("x.sh", Some("#@flag:out - Output [dir,required]\n"));
    assert!(declared(&bare)[0].required);
}

#[test]
fn unreadable_script_still_is_a_command() {
    let built = build_script_command(text("ghost"), "/s/ghost.sh", None);
    assert_eq!(built.command.name, "ghost");
    assert_eq!(built.command.description, None);
    assert_eq!(built.command.arguments.len(), 1);
    assert_eq!(built.command.arguments[0].id, "shutlverboseid");
    assert_eq!(built.file_path, "/s/ghost.sh");
}

#[test]
fn test_build_command_tree_for_subfolder() {
    let scripts_dir = vec![dir(
        "subdir",
        vec![
            dir(
                "test",
                vec![
                    plain_file(".shutl", "This is a test subsubdirectory"),
                    script(
                        "subsubdir.sh",
                        "#!/bin/bash\n#@description: Test script in subsubdirectory",
                    ),
                ],
            ),
            script("test.sh", "#!/bin/bash\n#@description: subdir script"),
        ],
    )];

    let commands = build_command_tree("/home/u/.shutl", &scripts_dir, &vec!["subdir".to_string()]);

    assert_eq!(commands.len(), 1);
    let subdir_cmd = find(&commands, "subdir").unwrap();
    let subdir_subcmds = &subdir_cmd.command.children;
    assert_eq!(subdir_subcmds.len(), 2);

    let testdir_cmd = subdir_subcmds.iter().find(|c| c.name == "test").unwrap();
    assert_eq!(testdir_cmd.children.len(), 0);
    assert_eq!(
        testdir_cmd.description,
        Some(text("This is a test subsubdirectory"))
    );
    let testscript_cmd = subdir_subcmds.iter().find(|c| c.name == "test.sh").unwrap();
    assert_eq!(testscript_cmd.children.len(), 0);
    assert_eq!(testscript_cmd.description, Some(text("subdir script")));
    assert_eq!(subdir_cmd.file_path, "/home/u/.shutl/subdir");
}

#[test]
fn test_build_command_tree_for_root() {
    let scripts_dir = vec![
        dir(
            "subdir",
            vec![script("sub.sh", "#!/bin/bash\n#@description: Sub script")],
        ),
        script("root.sh", "#!/bin/bash\n#@description: Root script"),
    ];

    let commands = build_command_tree("/r", &scripts_dir, &vec![]);

    assert_eq!(commands.len(), 2);
    let root_cmd = find(&commands, "root").unwrap();
    assert_eq!(root_cmd.command.description, Some(text("Root script")));
    assert_eq!(root_cmd.file_path, "/r/root.sh");

    let subdir_cmd = find(&commands, "subdir").unwrap();
    assert_eq!(subdir_cmd.command.children.len(), 0);
    assert_eq!(subdir_cmd.file_path, "/r/subdir");
}

#[test]
fn test_build_command_tree_directory_description() {
    let scripts_dir = vec![dir(
        "test_dir",
        vec![
            plain_file(".shutl", "This is a test directory"),
            script("test.sh", "#!/bin/bash\n#@description: Test script"),
        ],
    )];

    let commands = build_command_tree("/r", &scripts_dir, &vec!["test_dir".to_string()]);

    assert_eq!(commands.len(), 1);
    let dir_cmd = find(&commands, "test_dir").unwrap();
    assert_eq!(
        dir_cmd.command.description,
        Some(text("This is a test directory"))
    );
}

#[test]
fn test_build_command_tree_ignores_hidden() {
    let scripts_dir = vec![
        dir("visible", vec![]),
        dir(".hidden", vec![]),
        script(
            "visible_script.sh",
            "#!/bin/bash\n#@description: Visible script",
        ),
        script(
            ".hidden_script.sh",
            "#!/bin/bash\n#@description: Hidden script",
        ),
    ];

    let commands = build_command_tree("/r", &scripts_dir, &vec![]);

    assert_eq!(commands.len(), 2);
    let visible_cmd = find(&commands, "visible").unwrap();
    assert_eq!(visible_cmd.command.children.len(), 0);

    assert!(find(&commands, ".hidden").is_none());
    assert!(find(&commands, ".hidden.sh").is_none());
    assert!(find(&commands, ".hidden_script").is_none());
    assert!(find(&commands, ".hidden_script.sh").is_none());
    assert!(find(&commands, "visible_script").is_some());
}

#[test]
fn test_colliding_folder_and_script() {
    let scripts_dir = vec![
        dir(
            "test",
            vec![script(
                "subdirtest.sh",
                "#!/bin/bash\n#@description: Test script in subdirectory",
            )],
        ),
        script("test.sh", "#!/bin/bash\n#@description: Test script"),
    ];

    let commands = build_command_tree("/r", &scripts_dir, &vec![]);

    assert_eq!(commands.len(), 2);

    let cmd1 = find(&commands, "test.sh").unwrap();
    assert_eq!(cmd1.command.description, Some(text("Test script")));
    let folder = find(&commands, "test").unwrap();
    assert!(folder.command.arguments.is_empty());
    assert_eq!(folder.file_path, "/r/test");
}

#[test]
fn test_duplicate_script_names() {
    let scripts_dir = vec![
        script("test.sh", "#!/bin/bash\n#@description: First test script"),
        script(
            "test.sh.sh",
            "#!/bin/bash\n#@description: Second test script",
        ),
    ];

    let commands = build_command_tree("/r", &scripts_dir, &vec![]);

    assert_eq!(commands.len(), 2);

    let cmd1 = find(&commands, "test").unwrap();
    assert_eq!(cmd1.command.description, Some(text("First test script")));

    let cmd2 = find(&commands, "test.sh").unwrap();
    assert_eq!(cmd2.command.description, Some(text("Second test script")));
}

#[test]
fn test_edit_command() {
    let scripts_dir = vec![
        script("root.sh", "#!/bin/bash\n#@description: Root script"),
        dir(
            "subdir",
            vec![
                script("sub.sh", "#!/bin/bash\n#@description: Sub script"),
                dir(
                    "subsubdir",
                    vec![script(
                        "subsub.sh",
                        "#!/bin/bash\n#@description: Sub-sub script",
                    )],
                ),
            ],
        ),
    ];
    let base = "/tmp/x/.shutl";

    let components = vec!["root".to_string()];
    assert_eq!(
        find_script_file_in_dir(&components, base, &scripts_dir).unwrap(),
        "/tmp/x/.shutl/root.sh"
    );

    let components = vec!["subdir".to_string(), "sub".to_string()];
    assert_eq!(
        find_script_file_in_dir(&components, base, &scripts_dir).unwrap(),
        "/tmp/x/.shutl/subdir/sub.sh"
    );

    let components = vec![
        "subdir".to_string(),
        "subsubdir".to_string(),
        "subsub".to_string(),
    ];
    assert_eq!(
        find_script_file_in_dir(&components, base, &scripts_dir).unwrap(),
        "/tmp/x/.shutl/subdir/subsubdir/subsub.sh"
    );

    let components = vec!["nonexistent".to_string()];
    assert!(find_script_file_in_dir(&components, base, &scripts_dir).is_none());

    let components = vec!["subdir".to_string(), "nonexistent".to_string()];
    assert!(find_script_file_in_dir(&components, base, &scripts_dir).is_none());
}

#[test]
fn directory_and_file_of_one_name() {
    let listing = vec![
        script("build.sh", "#@description: Build it\n"),
        dir("build", vec![script("all.sh", "")]),
    ];
    let commands = commands_for_dir(".shutl", &listing);
    let names: Vec<&str> = commands.iter().map(|c| c.command.name.as_str()).collect();
    assert_eq!(names, vec!["build", "build.sh"]);
    assert_eq!(commands[1].file_path, ".shutl/build.sh");

    // The word `build` names the directory, the word `build.sh` the script.
    let by_dir = build_command_tree(".shutl", &listing, &words(&["build"]));
    assert_eq!(by_dir.len(), 1);
    assert_eq!(by_dir[0].command.name, "build");
    assert_eq!(by_dir[0].command.children.len(), 1);
    assert_eq!(by_dir[0].command.children[0].name, "all");
    let by_file = build_command_tree(".shutl", &listing, &words(&["build.sh"]));
    assert_eq!(by_file.len(), 1);
    assert_eq!(by_file[0].command.name, "build.sh");
    assert_eq!(by_file[0].command.description, Some(text("Build it")));
}

#[test]
fn group_description_and_hidden_siblings() {
    let listing = vec![dir(
        "net",
        vec![
            plain_file(".shutl", "  Networking tools\n"),
            script("ping.sh", "#@description: Ping\n"),
            script(".secret.sh", "#@description: no\n"),
            dir(".git", vec![]),
            dir("dns", vec![]),
            plain_file("notes.txt", "not a script"),
        ],
    )];
    let commands = build_command_tree("/s", &listing, &words(&["shutl", "net"]));
    assert_eq!(commands.len(), 1);
    let net = &commands[0].command;
    assert_eq!(net.name, "net");
    assert_eq!(net.description, Some(text("Networking tools")));
    let names: Vec<&str> = net.children.iter().map(|c| c.name.as_str()).collect();
    assert_eq!(names, vec!["dns", "ping"]);
}

#[test]
fn words_that_name_nothing_are_passed_over() {
    let listing = vec![
        script("deploy.sh", "#@description: Deploy app\n"),
        dir("net", vec![script("ping.sh", "")]),
    ];
    let commands = build_command_tree("/s", &listing, &words(&["/usr/bin/shutl", "bogus", "deploy", "x"]));
    assert_eq!(commands.len(), 1);
    assert_eq!(commands[0].command.name, "deploy");
    assert_eq!(commands[0].file_path, "/s/deploy.sh");

    let all = build_command_tree("/s", &listing, &words(&["bogus", "more"]));
    let names: Vec<&str> = all.iter().map(|c| c.command.name.as_str()).collect();
    assert_eq!(names, vec!["net", "deploy"]);

    // An empty word names nothing and is passed over like any other.
    let through = build_command_tree("/s", &listing, &words(&["", "net"]));
    assert_eq!(through.len(), 1);
    assert_eq!(through[0].command.name, "net");
    assert_eq!(through[0].command.children.len(), 1);
    let listed = build_command_tree("/s", &listing, &words(&["", ""]));
    assert_eq!(listed.len(), 2);
}

#[test]
fn only_the_directory_on_the_way_is_expanded() {
    let listing = vec![
        dir("a", vec![dir("b", vec![script("c.sh", "")]), script("d.sh", "")]),
        dir("z", vec![script("never.sh", "")]),
    ];
    let commands = build_command_tree("/s", &listing, &words(&["a", "b"]));
    assert_eq!(commands.len(), 1);
    let a = &commands[0].command;
    assert_eq!(a.name, "a");
    assert_eq!(a.children.len(), 1);
    assert_eq!(a.children[0].name, "b");
    assert_eq!(a.children[0].children.len(), 1);
    assert_eq!(a.children[0].children[0].name, "c");
}

#[test]
fn files_that_may_not_be_run_are_no_commands() {
    let listing = vec![
        plain_file("readme.sh", "#@description: not executable\n"),
        script("run.py", "#@description: Runs\n"),
        Entry {
            name: text("socket"),
            kind: EntryKind::Other,
            executable: true,
            text: None,
            entries: vec![],
        },
    ];
    let commands = commands_for_dir("/s", &listing);
    assert_eq!(commands.len(), 1);
    assert_eq!(commands[0].command.name, "run");
    assert_eq!(is_script_file(&listing, "readme"), None);
    assert_eq!(is_script_file(&listing, "readme.sh"), None);
    assert_eq!(is_script_file(&listing, "run"), Some(1));
    assert_eq!(is_script_file(&listing, "run.py"), Some(1));
    assert_eq!(is_script_file(&listing, "socket"), None);
    assert!(build_command_tree("/s", &listing, &words(&["readme"]))
        .iter()
        .all(|c| c.command.name == "run"));
}

#[test]
fn clean_name_match_takes_the_first_executable_file() {
    let listing = vec![
        plain_file("job.sh", "#@description: may not be run\n"),
        script("job.py", "#@description: Runs the job\n"),
        script("other.sh", ""),
    ];
    // The first file with the clean name `job` may not be run: it is passed
    // by, and the word names the second.
    assert_eq!(is_script_file(&listing, "job"), Some(1));
    assert_eq!(is_script_file(&listing, "job.py"), Some(1));
    assert_eq!(is_script_file(&listing, "job.sh"), None);

    let commands = build_command_tree("/s", &listing, &words(&["job", "more"]));
    assert_eq!(commands.len(), 1);
    assert_eq!(commands[0].command.name, "job");
    assert_eq!(commands[0].file_path, "/s/job.py");
    assert_eq!(commands[0].command.description, Some(text("Runs the job")));
    assert!(commands[0].command.children.is_empty());
}

#[test]
fn exact_name_goes_before_clean_name() {
    let listing = vec![script("run.sh", "#@description: clean\n"), script("run", "#@description: exact\n")];
    assert_eq!(is_script_file(&listing, "run"), Some(1));
    let commands = build_command_tree("/s", &listing, &words(&["run"]));
    assert_eq!(commands[0].file_path, "/s/run");
    assert_eq!(commands[0].command.description, Some(text("exact")));
}

#[test]
fn unknown_extensions_stay_in_the_name() {
    let listing = vec![script("deploy.pl", ""), script("deploy.rb", ""), script("notes", "")];
    let commands = commands_for_dir("", &listing);
    let names: Vec<&str> = commands.iter().map(|c| c.command.name.as_str()).collect();
    assert_eq!(names, vec!["deploy.pl", "deploy", "notes"]);
    assert_eq!(commands[0].file_path, "deploy.pl");
}

#[test]
fn dir_command_reads_the_sidecar() {
    let with = dir_command("tools", &vec![plain_file(".shutl", "\n Tools \n")]);
    assert_eq!(
        with,
        CommandNode {
            name: text("tools"),
            description: Some(text("Tools")),
            arguments: vec![],
            children: vec![],
        }
    );
    let without = dir_command("tools", &vec![script("a.sh", "")]);
    assert_eq!(without.description, None);
    let unreadable = dir_command(
        "tools",
        &vec![Entry {
            name: text(".shutl"),
            kind: EntryKind::File,
            executable: false,
            text: None,
            entries: vec![],
        }],
    );
    assert_eq!(unreadable.description, None);
}

#[test]
fn subcommands_are_added_after_the_children() {
    let group = dir_command("g", &vec![]);
    let first = build_script_command(text("one"), "/g/one.sh", None);
    let second = build_script_command(text("two"), "/g/two.sh", None);
    let group = add_dir_subcommands(group, vec![first]);
    let group = add_dir_subcommands(group, vec![second]);
    let names: Vec<&str> = group.children.iter().map(|c| c.name.as_str()).collect();
    assert_eq!(names, vec!["one", "two"]);
}

#[test]
fn next_directory_follows_the_words() {
    let listing = vec![
        script("deploy.sh", ""),
        dir("net", vec![]),
        dir("db", vec![]),
    ];
    assert_eq!(next_directory(&listing, &words(&["shutl", "net", "db"]), 0), Some((1, 2)));
    assert_eq!(next_directory(&listing, &words(&["shutl", "net", "db"]), 2), Some((2, 3)));
    assert_eq!(next_directory(&listing, &words(&["shutl", "deploy", "net"]), 0), None);
    assert_eq!(next_directory(&listing, &words(&["shutl", "", "net"]), 0), Some((1, 3)));
    assert_eq!(next_directory(&listing, &words(&["", ""]), 0), None);
    assert_eq!(next_directory(&listing, &words(&["x", "y"]), 0), None);
    assert_eq!(next_directory(&listing, &words(&["net"]), 1), None);
}

#[test]
fn active_arguments_skip_the_completion_prefix() {
    let args = words(&["/usr/local/bin/shutl", "--", "shutl", "net", ""]);
    assert_eq!(active_arguments(&args, true), words(&["shutl", "net", ""]));
    assert_eq!(active_arguments(&args, false), args);
    let other = words(&["/usr/local/bin/shutl", "--", "other", "net"]);
    assert_eq!(active_arguments(&other, true), other);
    let short = words(&["shutl", "--"]);
    assert_eq!(active_arguments(&short, true), short);
    let none: Vec<String> = vec![];
    assert_eq!(active_arguments(&none, true), none);
    let bare = words(&["shutl", "--", "shutl"]);
    assert_eq!(active_arguments(&bare, true), words(&["shutl"]));
}

#[test]
fn cli_holds_the_commands_of_the_invocation() {
    let listing = vec![
        script("deploy.sh", "#@description: Deploy app\n"),
        dir("net", vec![plain_file(".shutl", "Networking tools")]),
    ];
    let cli = build_cli_command(&words(&["shutl"]), false, "/s", &listing);
    assert_eq!(cli.name, "shutl");
    assert_eq!(cli.description, None);
    assert!(cli.arguments.is_empty());
    let names: Vec<&str> = cli.children.iter().map(|c| c.name.as_str()).collect();
    assert_eq!(names, vec!["net", "deploy"]);
    assert_eq!(cli.children[0].description, Some(text("Networking tools")));

    let completing = build_cli_command(
        &words(&["/bin/shutl", "--", "shutl", "deploy"]),
        true,
        "/s",
        &listing,
    );
    assert_eq!(completing.children.len(), 1);
    assert_eq!(completing.children[0].name, "deploy");
}

#[test]
fn dot_word_that_names_nothing_hides_nothing() {
    let listing = vec![
        dir("net", vec![script("ping.sh", ""), script(".probe.sh", "")]),
        script(".secret.sh", ""),
    ];
    let commands = build_command_tree("/s", &listing, &words(&[".nothing", "net", ".nope"]));
    assert_eq!(commands.len(), 1);
    assert_eq!(commands[0].command.name, "net");
    let names: Vec<&str> = commands[0].command.children.iter().map(|c| c.name.as_str()).collect();
    assert_eq!(names, vec!["ping"]);
    // By its full name a hidden script is still run.
    let by_name = build_command_tree("/s", &listing, &words(&[".secret.sh"]));
    assert_eq!(by_name.len(), 1);
    assert_eq!(by_name[0].command.name, ".secret.sh");
}

#[test]
fn hidden_directory_is_entered_only_by_its_name() {
    let listing = vec![dir(".hidden", vec![script("a.sh", "")]), script("b.sh", "")];
    let listed = build_command_tree("/s", &listing, &words(&["shutl"]));
    assert_eq!(listed.len(), 1);
    assert_eq!(listed[0].command.name, "b");
    let entered = build_command_tree("/s", &listing, &words(&[".hidden"]));
    assert_eq!(entered.len(), 1);
    assert_eq!(entered[0].command.name, ".hidden");
}

#[test]
fn expansion_touches_only_the_completion_root() {
    let metadata = parse_command_metadata(
        "x.sh",
        Some("#@arg:plain - Plain\n#@arg:here - Here [dir]\n#@flag:there - There [file:/var/log]\n"),
    );
    let args = declared(&metadata);

    // Nothing to expand: the argument comes back as it is.
    assert_eq!(with_expanded_root(args[0].clone()), Some(args[0].clone()));
    assert_eq!(with_expanded_root(args[1].clone()), Some(args[1].clone()));
    // A root without `~` or variables is its own expansion.
    assert_eq!(with_expanded_root(args[2].clone()), Some(args[2].clone()));

    let moved = with_root(args[2].clone(), text("/srv"));
    assert_eq!(
        moved.completion,
        Some(PathCompletion {
            kind: PathKind::File,
            root: Some(text("/srv"))
        })
    );
    assert_eq!(moved.id, "there");
    assert_eq!(with_root(args[0].clone(), text("/srv")), args[0]);
    let rooted = with_root(args[1].clone(), text("/srv"));
    assert_eq!(
        rooted.completion,
        Some(PathCompletion {
            kind: PathKind::Dir,
            root: Some(text("/srv"))
        })
    );
}

#[test]
fn expansion_fails_on_a_variable_that_is_not_set() {
    let metadata = parse_command_metadata(
        "x.sh",
        Some("#@arg:out - Out [dir:$SHUTL_TEST_VARIABLE_THAT_NOBODY_SETS/out]\n"),
    );
    let args = declared(&metadata);
    assert_eq!(
        args[0].completion,
        Some(PathCompletion {
            kind: PathKind::Dir,
            root: Some(text("$SHUTL_TEST_VARIABLE_THAT_NOBODY_SETS/out"))
        })
    );
    assert_eq!(with_expanded_root(args[0].clone()), None);
}
