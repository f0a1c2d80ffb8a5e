use bulker::words::{has_tty_flag, shell_split, strip_tty_flag, word_has_tty_flag};

#[test]
fn test_shell_split_simple() {
    let result = shell_split("--gpus all --shm-size 8g");
    assert_eq!(result, vec!["--gpus", "all", "--shm-size", "8g"]);
}

#[test]
fn test_shell_split_quoted() {
    let result = shell_split("--label \"my label\" --name test");
    assert_eq!(result, vec!["--label", "my label", "--name", "test"]);
}

#[test]
fn test_shell_split_single_quoted() {
    let result = shell_split("--env 'FOO=bar baz'");
    assert_eq!(result, vec!["--env", "FOO=bar baz"]);
}

#[test]
fn test_strip_tty_flag_it() {
    assert_eq!(strip_tty_flag("-it"), "-i");
}

#[test]
fn test_strip_tty_flag_ti() {
    assert_eq!(strip_tty_flag("-ti"), "-i");
}

#[test]
fn test_strip_tty_flag_standalone_t() {
    assert_eq!(strip_tty_flag("-t"), "");
}

#[test]
fn test_strip_tty_flag_long_tty() {
    assert_eq!(strip_tty_flag("--tty"), "");
}

#[test]
fn test_strip_tty_flag_no_tty_present() {
    assert_eq!(strip_tty_flag("-i --entrypoint jq"), "-i --entrypoint jq");
}

#[test]
fn test_strip_tty_flag_mixed_args() {
    assert_eq!(
        strip_tty_flag("--gpus all -it --shm-size 8g"),
        "--gpus all -i --shm-size 8g"
    );
}

#[test]
fn test_strip_tty_flag_port_mapping_unchanged() {
    assert_eq!(
        strip_tty_flag("-p 9200:9200 -p 9300:9300"),
        "-p 9200:9200 -p 9300:9300"
    );
}

#[test]
fn test_strip_tty_flag_compound_dit() {
    assert_eq!(strip_tty_flag("-dit"), "-di");
}

#[test]
fn test_strip_tty_flag_empty() {
    assert_eq!(strip_tty_flag(""), "");
}

#[test]
fn shell_split_escapes_and_edges() {
    assert_eq!(shell_split("a\\ b c"), vec!["a b", "c"]);
    assert_eq!(shell_split("  \t  "), Vec::<String>::new());
    assert_eq!(shell_split("'a\\b'"), vec!["a\\b"]);
    assert_eq!(shell_split("\"it's\""), vec!["it's"]);
    assert_eq!(shell_split("a\tb"), vec!["a", "b"]);
    assert_eq!(shell_split("'open quote"), vec!["open quote"]);
    assert_eq!(shell_split("x ''"), vec!["x"]);
    assert_eq!(shell_split("trailing\\"), vec!["trailing"]);
}

#[test]
fn strip_tty_flag_returns_text_without_flag_unchanged() {
    assert_eq!(strip_tty_flag("  -i    --rm "), "  -i    --rm ");
    assert_eq!(strip_tty_flag("a  b"), "a  b");
    assert_eq!(strip_tty_flag("--label \"my label\" --name test"), "--label \"my label\" --name test");
    assert_eq!(strip_tty_flag("--env 'FOO=bar  baz'\t-d"), "--env 'FOO=bar  baz'\t-d");
    assert_eq!(strip_tty_flag("--tty-mode x"), "--tty-mode x");
    assert_eq!(strip_tty_flag("tea -v"), "tea -v");
    assert_eq!(strip_tty_flag("a\\ b \"\" c\\"), "a\\ b \"\" c\\");
    assert_eq!(strip_tty_flag("'open quote -t"), "'open quote -t");
}

#[test]
fn strip_tty_flag_removes_flag_words_with_the_blank_behind() {
    assert_eq!(strip_tty_flag("a -t b"), "a b");
    assert_eq!(strip_tty_flag("-t --rm"), "--rm");
    assert_eq!(strip_tty_flag("--rm -t"), "--rm ");
    assert_eq!(strip_tty_flag("-t -t --tty"), "");
    assert_eq!(strip_tty_flag("- -tt"), "- ");
    assert_eq!(strip_tty_flag("a  --tty\tb"), "a  b");
    assert_eq!(strip_tty_flag("\"-t\" x"), "x");
}

#[test]
fn strip_tty_flag_keeps_quoting_of_other_words() {
    assert_eq!(
        strip_tty_flag("--label \"my label\"  -it --env 'A=b c'"),
        "--label \"my label\"  -i --env 'A=b c'"
    );
    let cleaned = strip_tty_flag("--label \"my label\" -t --name 'x y'");
    assert_eq!(cleaned, "--label \"my label\" --name 'x y'");
    assert_eq!(shell_split(&cleaned), vec!["--label", "my label", "--name", "x y"]);
}

#[test]
fn strip_tty_flag_takes_the_t_out_of_a_cluster_as_written() {
    assert_eq!(strip_tty_flag("-\"it\""), "-\"i\"");
    assert_eq!(strip_tty_flag("-i\\ t"), "-i\\ ");
    assert_eq!(shell_split(&strip_tty_flag("-i\\ t")), vec!["-i "]);
    assert_eq!(strip_tty_flag("-t'\"'t"), "-'\"'");
    assert_eq!(shell_split(&strip_tty_flag("-t'\"'t")), vec!["-\""]);
    assert_eq!(strip_tty_flag("-t-x"), "--x");
    assert_eq!(strip_tty_flag("-i\\t -v"), "-i -v");
    assert_eq!(strip_tty_flag("-d'\\t'"), "-d'\\'");
    assert_eq!(shell_split(&strip_tty_flag("-d'\\t'")), vec!["-d\\"]);
    assert_eq!(strip_tty_flag("-\\\\t"), "-\\\\");
    assert_eq!(strip_tty_flag("-i't  u'"), "-i'  u'");
}

#[test]
fn stripped_text_splits_into_the_stripped_words() {
    for text in [
        "-it", "a -t b", "  -dit  'q -t' --tty x\\ y", "-t", "\"-it\" -v", "-ttt z", "-i\\t\\ x",
        "-a\"t b\"t c", "-\\t\\t", "-'t'\\",
    ] {
        let expected: Vec<String> = shell_split(text)
            .into_iter()
            .filter(|w| w != "-t" && w != "--tty")
            .map(|w| {
                if w.starts_with('-') && !w.starts_with("--") && w.len() > 1 {
                    w.chars().filter(|c| *c != 't').collect()
                } else {
                    w
                }
            })
            .filter(|w| w != "-")
            .collect();
        assert_eq!(shell_split(&strip_tty_flag(text)), expected, "for {:?}", text);
        assert!(!has_tty_flag(&strip_tty_flag(text)), "for {:?}", text);
    }
}

#[test]
fn has_tty_flag_looks_at_words() {
    assert!(has_tty_flag("-t"));
    assert!(has_tty_flag("--tty"));
    assert!(has_tty_flag("--rm -dit"));
    assert!(has_tty_flag("\"-t\""));
    assert!(!has_tty_flag(""));
    assert!(!has_tty_flag("a  b"));
    assert!(!has_tty_flag("-i\n"));
    assert!(!has_tty_flag("--tty-mode --title x"));
    assert!(!has_tty_flag("'a -t b'"));
    assert!(word_has_tty_flag("-it"));
    assert!(word_has_tty_flag("-tt"));
    assert!(!word_has_tty_flag("-i"));
    assert!(!word_has_tty_flag("--t"));
    assert!(!word_has_tty_flag("t"));
    assert!(!word_has_tty_flag("-"));
    assert!(!word_has_tty_flag(""));
}
