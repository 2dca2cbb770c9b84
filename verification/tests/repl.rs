use reedline::Completer;
use stl_base::completion::{
    complete_line, LineCompletion, completion_words, language_completer, load_path_query, load_path_start, path_suggestions,
    split_path_for_completion, word_suggestions, DirEntryInfo, PathQuery, PathSuggestion,
    WordSuggestion,
};
use stl_base::repl::{
    classify_input, expand_path, line_is_incomplete, unquote_path_arg, InputAction, MetaCommand,
    MetaCommandError, ReplControl,
};

fn parse_meta(input: &str) -> Result<Option<MetaCommand>, MetaCommandError> {
    MetaCommand::parse(input, Some("/home/user"))
}

#[test]
fn parse_meta_commands() {
    assert_eq!(parse_meta(":quit").unwrap(), Some(MetaCommand::Quit));
    assert_eq!(parse_meta(":rebuild").unwrap(), Some(MetaCommand::Rebuild));
    assert_eq!(
        parse_meta(":load examples.stl").unwrap(),
        Some(MetaCommand::Load("examples.stl".to_string()))
    );
    assert_eq!(
        parse_meta(":load 'some file.stl'").unwrap(),
        Some(MetaCommand::Load("some file.stl".to_string()))
    );
    assert_eq!(parse_meta("+(1 2)").unwrap(), None);
    assert_eq!(parse_meta(":unknown").unwrap(), None);
}

#[test]
fn parse_meta_commands_reject_bad_usage() {
    assert!(parse_meta(":load").is_err());
    assert!(parse_meta(":quit now").is_err());
}

#[test]
fn load_path_start_finds_path_after_load_command() {
    assert_eq!(load_path_start(":load "), Some(6));
    assert_eq!(load_path_start("  :load foo"), Some(8));
    assert_eq!(load_path_start(":load"), None);
    assert_eq!(load_path_start(":rebuild"), None);
}

#[test]
fn split_path_for_completion_separates_directory_prefix() {
    assert_eq!(split_path_for_completion("foo"), ("", "foo"));
    assert_eq!(split_path_for_completion("dir/foo"), ("dir/", "foo"));
    assert_eq!(split_path_for_completion("dir/"), ("dir/", ""));
}

#[test]
fn completion_words_include_meta_commands_and_language_forms() {
    let words = completion_words();

    assert!(words.contains(&":quit".to_string()));
    assert!(words.contains(&":rebuild".to_string()));
    assert!(words.contains(&":load".to_string()));
    assert!(words.contains(&"letrec".to_string()));
    assert!(words.contains(&"fn(".to_string()));
    assert!(words.contains(&"=(".to_string()));
}

fn completion_values(line: &str, pos: usize) -> Vec<String> {
    let mut completer = language_completer();
    completer
        .complete(line, pos)
        .suggestions()
        .iter()
        .map(|suggestion| suggestion.value.clone())
        .collect()
}

#[test]
fn language_completer_completes_meta_commands_and_forms() {
    let meta_values = completion_values(":r", 2);
    assert!(meta_values.contains(&":rebuild".to_string()));

    let form_values = completion_values("let", 3);
    assert!(form_values.contains(&"letrec".to_string()));
}

#[test]
fn language_completer_offers_every_completion_word() {
    for word in completion_words() {
        let typed = &word[..word.len() - 1];
        let values = completion_values(typed, typed.len());
        assert!(values.contains(&word), "{word:?} not offered after {typed:?}: {values:?}");
    }
}

#[test]
fn meta_command_parse_rejects_argument_to_rebuild() {
    assert_eq!(
        parse_meta(":rebuild now"),
        Err(MetaCommandError::Usage { usage: ":rebuild" })
    );
    assert_eq!(
        parse_meta(":quit now"),
        Err(MetaCommandError::Usage { usage: ":quit" })
    );
    assert_eq!(
        parse_meta(":load   "),
        Err(MetaCommandError::Usage { usage: ":load <path>" })
    );
}

#[test]
fn meta_command_parse_splits_at_any_white_space() {
    assert_eq!(
        parse_meta(":load\tdir/file.stl  "),
        Ok(Some(MetaCommand::Load("dir/file.stl".to_string())))
    );
    assert_eq!(parse_meta(":quit \u{3000} "), Ok(Some(MetaCommand::Quit)));
    assert_eq!(parse_meta(":quit\u{a0}x"), Err(MetaCommandError::Usage { usage: ":quit" }));
}

#[test]
fn meta_command_load_expands_home() {
    assert_eq!(
        parse_meta(":load ~/code/a.stl"),
        Ok(Some(MetaCommand::Load("/home/user/code/a.stl".to_string())))
    );
    assert_eq!(parse_meta(":load ~"), Ok(Some(MetaCommand::Load("/home/user".to_string()))));
    assert_eq!(
        MetaCommand::parse(":load ~/a.stl", None),
        Ok(Some(MetaCommand::Load("~/a.stl".to_string())))
    );
    assert_eq!(
        parse_meta(":load \"~/x y.stl\""),
        Ok(Some(MetaCommand::Load("/home/user/x y.stl".to_string())))
    );
}

#[test]
fn unquote_removes_one_pair_of_matching_quotes() {
    assert_eq!(unquote_path_arg("\"a b\""), "a b");
    assert_eq!(unquote_path_arg("'a'"), "a");
    assert_eq!(unquote_path_arg("''"), "");
    assert_eq!(unquote_path_arg("\"a'"), "\"a'");
    assert_eq!(unquote_path_arg("\""), "\"");
    assert_eq!(unquote_path_arg("é"), "é");
    assert_eq!(unquote_path_arg("\"\"x\"\""), "\"x\"");
}

#[test]
fn expand_path_joins_home_like_a_path_buffer() {
    assert_eq!(expand_path("~/a", Some("/home/u")), "/home/u/a");
    assert_eq!(expand_path("~/a", Some("/home/u/")), "/home/u/a");
    assert_eq!(expand_path("~/a", Some("")), "a");
    assert_eq!(expand_path("~//etc", Some("/home/u")), "/etc");
    assert_eq!(expand_path("~/", Some("/home/u")), "/home/u/");
    assert_eq!(expand_path("~", None), "~");
    assert_eq!(expand_path("~x", Some("/home/u")), "~x");
    assert_eq!(expand_path("a/~/b", Some("/home/u")), "a/~/b");
}

#[test]
fn load_path_start_counts_bytes() {
    assert_eq!(load_path_start("\u{3000}:load é"), Some(9));
    assert_eq!(load_path_start(":loadx"), None);
    assert_eq!(load_path_start(":load\n\tfoo"), Some(7));
    assert_eq!(load_path_start("x :load foo"), None);
}

#[test]
fn split_path_for_completion_uses_last_slash() {
    assert_eq!(split_path_for_completion("a/b/c"), ("a/b/", "c"));
    assert_eq!(split_path_for_completion("/"), ("/", ""));
    assert_eq!(split_path_for_completion(""), ("", ""));
    assert_eq!(split_path_for_completion("é/ü"), ("é/", "ü"));
}

#[test]
fn classify_input_decides_what_a_line_does() {
    assert_eq!(classify_input("   \n", None), Ok(InputAction::Nothing));
    assert_eq!(classify_input("  :quit  ", None), Ok(InputAction::Meta(MetaCommand::Quit)));
    assert_eq!(classify_input(":help", None), Ok(InputAction::UnknownMeta));
    assert_eq!(classify_input(" +(1 2)", None), Ok(InputAction::Evaluate));
    assert_eq!(
        classify_input(":quit please", None),
        Err(MetaCommandError::Usage { usage: ":quit" })
    );
}

#[test]
fn control_after_meta_commands() {
    assert_eq!(MetaCommand::Quit.control_after(), ReplControl::Exit);
    assert_eq!(MetaCommand::Rebuild.control_after(), ReplControl::Exit);
    assert_eq!(MetaCommand::Load("x".to_string()).control_after(), ReplControl::Continue);
}

#[test]
fn unfinished_lines_are_incomplete() {
    assert!(line_is_incomplete("+(1 2"));
    assert!(line_is_incomplete("cond ("));
    assert!(line_is_incomplete("let (x = 1)"));
    assert!(!line_is_incomplete("+(1 2)"));
    assert!(!line_is_incomplete("   "));
    assert!(!line_is_incomplete("+ 1 2"));
    assert!(!line_is_incomplete("+(1, 2"));
}

#[test]
fn load_path_query_reads_the_typed_path() {
    assert_eq!(load_path_query(":rebuild", None), None);
    assert_eq!(
        load_path_query(":load ", None),
        Some(PathQuery {
            lookup_dir: ".".to_string(),
            dir_prefix: "".to_string(),
            file_prefix: "".to_string(),
            replacement_start: 6,
        })
    );
    assert_eq!(
        load_path_query(":load 'dir/sub/fi", None),
        Some(PathQuery {
            lookup_dir: "dir/sub/".to_string(),
            dir_prefix: "dir/sub/".to_string(),
            file_prefix: "fi".to_string(),
            replacement_start: 7,
        })
    );
    assert_eq!(
        load_path_query("  :load ~/p", Some("/home/u")),
        Some(PathQuery {
            lookup_dir: "/home/u/".to_string(),
            dir_prefix: "~/".to_string(),
            file_prefix: "p".to_string(),
            replacement_start: 8,
        })
    );
}

#[test]
fn path_suggestions_filter_and_sort_entries() {
    let query = load_path_query(":load dir/p", None).unwrap();
    let entries = vec![
        DirEntryInfo { name: "program.stl".to_string(), is_dir: false },
        DirEntryInfo { name: "other.stl".to_string(), is_dir: false },
        DirEntryInfo { name: "pack".to_string(), is_dir: true },
        DirEntryInfo { name: "p".to_string(), is_dir: false },
    ];
    assert_eq!(
        path_suggestions(&query, &entries),
        vec![
            PathSuggestion { value: "dir/p".to_string(), description: "file" },
            PathSuggestion { value: "dir/pack/".to_string(), description: "directory" },
            PathSuggestion { value: "dir/program.stl".to_string(), description: "file" },
        ]
    );
    assert_eq!(path_suggestions(&query, &Vec::new()), Vec::new());
}

#[test]
fn meta_command_errors_show_their_usage() {
    assert_eq!(
        MetaCommandError::Usage { usage: ":load <path>" }.message(),
        "usage: :load <path>"
    );
}

#[test]
fn a_session_goes_on_until_quit() {
    let lines = ["", "+(1 2)", ":nothing", "  :quit  "];
    let controls: Vec<ReplControl> = lines
        .iter()
        .map(|line| classify_input(line, None).unwrap().control())
        .collect();
    assert_eq!(
        controls,
        vec![
            ReplControl::Continue,
            ReplControl::Continue,
            ReplControl::Continue,
            ReplControl::Exit
        ]
    );
    assert_eq!(
        classify_input(":load a.stl", None).unwrap().control(),
        ReplControl::Continue
    );
    assert_eq!(classify_input(":rebuild", None).unwrap().control(), ReplControl::Exit);
}

#[test]
fn complete_line_offers_stored_words_or_a_path_query() {
    let mut completer = language_completer();
    match complete_line(&mut completer, "x let", 5, None) {
        LineCompletion::Words(words) => {
            let values: Vec<&str> = words.iter().map(|w| w.value.as_str()).collect();
            assert!(values.contains(&"letrec"));
            assert!(words.iter().all(|w| w.end == 5 && w.start <= w.end));
            let stored = completion_words();
            assert!(words.iter().all(|w| stored.contains(&w.value)));
        }
        other => panic!("expected words, found {other:?}"),
    }
    assert_eq!(
        complete_line(&mut completer, ":load dir/x", 11, None),
        LineCompletion::LoadPath(load_path_query(":load dir/x", None).unwrap())
    );
    assert_eq!(complete_line(&mut completer, "é", 1, None), LineCompletion::Nothing);
    assert_eq!(complete_line(&mut completer, "x", 5, None), LineCompletion::Nothing);
}

#[test]
fn complete_line_offers_every_extension_of_the_typed_word() {
    let mut completer = language_completer();
    let in_place = |completion: LineCompletion, start: usize| -> Vec<String> {
        match completion {
            LineCompletion::Words(words) => {
                let mut values: Vec<String> = words
                    .into_iter()
                    .filter(|w| w.start == start)
                    .map(|w| w.value)
                    .collect();
                values.sort();
                values
            }
            other => panic!("expected words, found {other:?}"),
        }
    };
    assert_eq!(
        in_place(complete_line(&mut completer, "x let", 5, None), 2),
        vec!["let (", "letrec", "letrec ("]
    );
    assert_eq!(
        in_place(complete_line(&mut completer, "a\nle", 4, None), 2),
        vec!["let", "let (", "letrec", "letrec ("]
    );
    assert_eq!(
        in_place(complete_line(&mut completer, ":r", 2, None), 0),
        vec![":rebuild"]
    );
}

#[test]
fn word_suggestions_keep_the_completer_order() {
    let raw = vec![("let (".to_string(), 0, 3), ("letrec".to_string(), 0, 3)];
    assert_eq!(
        word_suggestions(raw),
        vec![
            WordSuggestion { value: "let (".to_string(), start: 0, end: 3 },
            WordSuggestion { value: "letrec".to_string(), start: 0, end: 3 },
        ]
    );
}

#[test]
fn complete_line_after_a_space_offers_the_completer_suggestions() {
    let mut completer = language_completer();
    let expected: Vec<String> = completion_values("let ", 4);
    match complete_line(&mut completer, "let ", 4, None) {
        LineCompletion::Words(words) => {
            let values: Vec<String> = words.into_iter().map(|w| w.value).collect();
            assert_eq!(values, expected);
            assert!(values.contains(&"letrec".to_string()));
        }
        other => panic!("expected words, found {other:?}"),
    }
}
