use shutl::metadata::{
    extract_annotations, parse_annotations, parse_argument, parse_command_metadata, parse_line,
    split_once_or_all, ArgType, CommandMetadata, CompleteOptions, Config, LineType,
};

fn text(s: &str) -> String {
    s.to_string()
}

#[test]
fn test_parse_command_metadata() {
    let script_content = "#!/bin/bash
#@description: Test script with various arguments and flags
#@arg:input - Input file path
#@arg:output - Output file path [dir,default:output.txt]
#@arg:... - Additional arguments
#@flag:verbose - Enable verbose output [bool]
#@flag:dry-run - Perform a dry run [default:false, bool]
#@flag:output-dir - Directory for output files [dir,required, default:./output]
#@flag:extra - Extra flag [default:opt1, options:opt1|opt2]
#@flag:debug - Enable debug mode [bool]
";

    let metadata = parse_command_metadata("test.sh", Some(script_content));

    assert_eq!(
        metadata.description,
        "Test script with various arguments and flags"
    );

    let input_arg = &metadata.arguments[0];
    assert_eq!(
        input_arg,
        &LineType::Positional(
            "input".to_string(),
            "Input file path".to_string(),
            Config::default()
        )
    );

    let output_arg = &metadata.arguments[1];
    assert_eq!(
        output_arg,
        &LineType::Positional(
            "output".to_string(),
            "Output file path".to_string(),
            Config {
                default: Some("output.txt".to_string()),
                arg_type: Some(ArgType::Dir),
                ..Default::default()
            }
        )
    );

    let catch_all_arg = &metadata.arguments[2];
    assert_eq!(
        catch_all_arg,
        &LineType::Positional(
            "additional-arguments".to_string(),
            "Additional arguments".to_string(),
            Config {
                arg_type: Some(ArgType::CatchAll),
                ..Default::default()
            }
        )
    );

    let verbose_flag = &metadata.arguments[3];
    assert_eq!(
        verbose_flag,
        &LineType::Flag(
            "verbose".to_string(),
            "Enable verbose output".to_string(),
            Config {
                arg_type: Some(ArgType::Bool),
                ..Default::default()
            }
        )
    );

    let dry_run_flag = &metadata.arguments[4];
    assert_eq!(
        dry_run_flag,
        &LineType::Flag(
            "dry-run".to_string(),
            "Perform a dry run".to_string(),
            Config {
                default: Some("false".to_string()),
                arg_type: Some(ArgType::Bool),
                ..Default::default()
            }
        )
    );

    let output_dir_flag = &metadata.arguments[5];
    assert_eq!(
        output_dir_flag,
        &LineType::Flag(
            "output-dir".to_string(),
            "Directory for output files".to_string(),
            Config {
                default: Some("./output".to_string()),
                arg_type: Some(ArgType::Dir),
                required: true,
                ..Default::default()
            }
        )
    );

    let extra_flag = &metadata.arguments[6];
    assert_eq!(
        extra_flag,
        &LineType::Flag(
            "extra".to_string(),
            "Extra flag".to_string(),
            Config {
                default: Some("opt1".to_string()),
                options: vec!["opt1".to_string(), "opt2".to_string()],
                ..Default::default()
            }
        )
    );

    let debug_flag = &metadata.arguments[7];
    assert_eq!(
        debug_flag,
        &LineType::Flag(
            "debug".to_string(),
            "Enable debug mode".to_string(),
            Config {
                arg_type: Some(ArgType::Bool),
                ..Default::default()
            }
        )
    );
    assert_eq!(metadata.arguments.len(), 8);
}

#[test]
fn unreadable_script_declares_nothing() {
    let metadata = parse_command_metadata("deploy.sh", None);
    assert_eq!(metadata, CommandMetadata::default());
    assert_eq!(metadata.description, "");
    assert!(metadata.arguments.is_empty());
}

#[test]
fn parsing_twice_gives_the_same_metadata() {
    let content = "#@description: Deploy app\n#@arg:target - Target env [default:staging]\n";
    let first = parse_command_metadata("deploy.sh", Some(content));
    let second = parse_command_metadata("deploy.sh", Some(content));
    assert_eq!(first, second);
    assert_eq!(first.description, "Deploy app");
    assert_eq!(first.arguments.len(), 1);
}

#[test]
fn header_stops_at_the_first_other_line() {
    let content = "#!/bin/sh\n#@description: one\n\n#@description: two\n#@arg:x - y\n";
    let metadata = parse_command_metadata("a.sh", Some(content));
    assert_eq!(metadata.description, "one");
    assert!(metadata.arguments.is_empty());
}

#[test]
fn header_needs_no_interpreter_line() {
    let content = "#@description: first\n#@description: last\necho hi\n#@arg:x - y";
    let metadata = parse_command_metadata("a.sh", Some(content));
    assert_eq!(metadata.description, "last");
    assert!(metadata.arguments.is_empty());
}

#[test]
fn only_the_first_line_may_be_an_interpreter_line() {
    let content = "#!/bin/sh\n#!/bin/sh\n#@description: never read\n";
    let metadata = parse_command_metadata("a.sh", Some(content));
    assert_eq!(metadata, CommandMetadata::default());
}

#[test]
fn javascript_files_use_their_own_marker() {
    let content = "#!/usr/bin/env node\n//@description: Node tool\n//@flag:fast - Go fast [bool]\n";
    let js = parse_command_metadata("/scripts/tool.js", Some(content));
    assert_eq!(js.description, "Node tool");
    assert_eq!(js.arguments.len(), 1);
    let sh = parse_command_metadata("/scripts/tool.sh", Some(content));
    assert_eq!(sh, CommandMetadata::default());
    let hidden = parse_command_metadata("/scripts/.js", Some(content));
    assert_eq!(hidden, CommandMetadata::default());
    let hash = parse_command_metadata("tool.js", Some("#@description: x\n"));
    assert_eq!(hash, CommandMetadata::default());
}

#[test]
fn carriage_returns_and_repeated_markers_are_dropped() {
    let content = "#!/bin/sh\r\n#@#@description:  Windows text \r\n#@flag:name - Desc [bool]\r\n";
    let metadata = parse_command_metadata("a.sh", Some(content));
    assert_eq!(metadata.description, "Windows text");
    assert_eq!(
        metadata.arguments,
        vec![LineType::Flag(
            text("name"),
            text("Desc"),
            Config {
                arg_type: Some(ArgType::Bool),
                ..Default::default()
            }
        )]
    );
}

#[test]
fn line_without_separator_is_dropped() {
    assert_eq!(parse_line("arg:input"), None);
    assert_eq!(parse_line("flag:verbose- no separator"), None);
    assert_eq!(parse_line("something else"), None);
    assert_eq!(parse_line(""), None);
    assert_eq!(
        parse_line("description:   spaced  "),
        Some(LineType::Description(text("spaced")))
    );
    assert_eq!(
        parse_line("arg:  input  - The input - twice "),
        Some(LineType::Positional(
            text("input "),
            text("The input - twice"),
            Config::default()
        ))
    );
}

#[test]
fn catch_all_takes_the_whole_text_as_description() {
    let (name, description, config) = parse_argument("...", " extra [required] ");
    assert_eq!(name, "additional-arguments");
    assert_eq!(description, "extra [required]");
    assert_eq!(
        config,
        Config {
            arg_type: Some(ArgType::CatchAll),
            ..Default::default()
        }
    );
}

#[test]
fn attributes_are_taken_out_of_the_description() {
    assert_eq!(
        extract_annotations("Output dir [dir, required ,default:./out] trailing"),
        (
            text("Output dir"),
            vec![text("dir"), text("required"), text("default:./out")]
        )
    );
    assert_eq!(
        extract_annotations(" no brackets "),
        (text(" no brackets "), vec![])
    );
    assert_eq!(
        extract_annotations("open [only"),
        (text("open [only"), vec![])
    );
    assert_eq!(
        extract_annotations("] early [a]"),
        (text("] early"), vec![text("a")])
    );
    assert_eq!(extract_annotations("x []"), (text("x"), vec![text("")]));
}

#[test]
fn split_once_or_all_splits_at_the_first_delimiter() {
    assert_eq!(split_once_or_all("default:a:b", ':'), ("default", "a:b"));
    assert_eq!(split_once_or_all("required", ':'), ("required", ""));
    assert_eq!(split_once_or_all(":x", ':'), ("", "x"));
    assert_eq!(split_once_or_all("", ':'), ("", ""));
    assert_eq!(split_once_or_all("dé:ü", ':'), ("dé", "ü"));
}

#[test]
fn no_attributes_give_nothing() {
    assert_eq!(parse_annotations(vec![]), None);
    assert_eq!(parse_annotations(vec![text("")]), Some(Config::default()));
    assert_eq!(
        parse_annotations(vec![text("any:~/")]),
        Some(Config::default())
    );
}

#[test]
fn each_attribute_sets_its_field() {
    assert_eq!(
        parse_annotations(vec![text("required")]),
        Some(Config {
            required: true,
            ..Default::default()
        })
    );
    assert_eq!(
        parse_annotations(vec![text(" bool ")]),
        Some(Config {
            arg_type: Some(ArgType::Bool),
            ..Default::default()
        })
    );
    assert_eq!(
        parse_annotations(vec![text("file")]),
        Some(Config {
            arg_type: Some(ArgType::File),
            ..Default::default()
        })
    );
    assert_eq!(
        parse_annotations(vec![text("path: ~/work ")]),
        Some(Config {
            arg_type: Some(ArgType::Path),
            complete_options: Some(CompleteOptions {
                path: text("~/work"),
                extensions: vec![],
            }),
            ..Default::default()
        })
    );
    assert_eq!(
        parse_annotations(vec![text("dir :/tmp"), text("file")]),
        Some(Config {
            arg_type: Some(ArgType::File),
            complete_options: Some(CompleteOptions {
                path: text("/tmp"),
                extensions: vec![],
            }),
            ..Default::default()
        })
    );
    assert_eq!(
        parse_annotations(vec![text("default: a value ")]),
        Some(Config {
            default: Some(text("a value")),
            ..Default::default()
        })
    );
    assert_eq!(
        parse_annotations(vec![text("options: one | two|three ")]),
        Some(Config {
            options: vec![text("one"), text("two"), text("three")],
            ..Default::default()
        })
    );
}

#[test]
fn marked_option_and_default_follow_the_order_written() {
    assert_eq!(
        parse_annotations(vec![text("default:two"), text("options:!one!|two")]),
        Some(Config {
            default: Some(text("one")),
            options: vec![text("one"), text("two")],
            ..Default::default()
        })
    );
    assert_eq!(
        parse_annotations(vec![text("options:!one!|two"), text("default:two")]),
        Some(Config {
            default: Some(text("two")),
            options: vec![text("one"), text("two")],
            ..Default::default()
        })
    );
    assert_eq!(
        parse_annotations(vec![text("default:zero"), text("options:one|two")]),
        Some(Config {
            default: Some(text("zero")),
            options: vec![text("one"), text("two")],
            ..Default::default()
        })
    );
    assert_eq!(
        parse_annotations(vec![text("options:a|!!b!!|!c!|!")]),
        Some(Config {
            default: Some(text("b")),
            options: vec![text("a"), text("b"), text("c"), text("")],
            ..Default::default()
        })
    );
}

#[test]
fn flag_with_required_and_default() {
    let line = parse_line("flag:out - Output [dir,required,default:./out]");
    assert_eq!(
        line,
        Some(LineType::Flag(
            text("out"),
            text("Output"),
            Config {
                default: Some(text("./out")),
                arg_type: Some(ArgType::Dir),
                required: true,
                ..Default::default()
            }
        ))
    );
}
