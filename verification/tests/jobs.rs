//! Job rendering. The escaping is the part that matters: a command reaching a
//! guest as anything other than what the tenant wrote is a bug that produces
//! wrong test results rather than an error.
use reaper::dict::Dict;
use reaper::job;

fn dict(pairs: &[(&str, &str)]) -> Dict<String> {
    let mut d = Dict::new();
    for (k, v) in pairs {
        d.insert(k.to_string(), v.to_string());
    }
    d
}

/// What a POSIX shell makes of the word at the start of a text, and the rest.
/// Only the rules a quoted word can meet: single quotes keep everything, and a
/// backslash outside them keeps one character.
fn shell_word(text: &str) -> (String, String) {
    let mut out = String::new();
    let mut inside = false;
    let mut chars = text.chars();
    loop {
        match chars.next() {
            None => {
                assert!(!inside, "an open quote: {text}");
                return (out, String::new());
            }
            Some('\'') => inside = !inside,
            Some(c) if inside => out.push(c),
            Some('\\') => out.push(chars.next().expect("something after the backslash")),
            Some(c) if c == '\n' || c == ' ' || c == ';' => {
                return (out, chars.as_str().to_string());
            }
            Some(c) => {
                assert!(c.is_alphanumeric() || c == '_' || c == '=', "{c:?} would be interpreted");
                out.push(c);
            }
        }
    }
}

/// What one variable holds once a shell has read a rendered script.
fn value_through_sh(value: &str) -> String {
    let script = job::render("printf '%s' \"$V\" > \"$OUT\"", &dict(&[("V", value)]));
    let at = script.find("V=").expect("the variable is set");
    let (word, _) = shell_word(&script[at..]);
    word["V=".len()..].to_string()
}

#[test]
fn hostile_environment_values_survive_a_real_shell() {
    for value in [
        "plain",
        "",
        "it's a quote",
        "\"double\" and 'single'",
        "$HOME and ${NOPE} and $(echo pwned)",
        "back`tick`s",
        "back\\slash\\",
        "semi; colon && ampersand | pipe",
        "new\nline",
        "trailing space ",
        "*",
    ] {
        assert_eq!(
            value_through_sh(value),
            value,
            "value did not survive rendering: {value:?}"
        );
    }
}

#[test]
fn a_command_is_not_quoted_because_it_is_a_shell_command() {
    let script = job::render("make test | tee $REAPER_OUT/log", &Dict::new());
    assert!(
        script.contains("make test | tee $REAPER_OUT/log"),
        "the tenant's command must reach the shell as written, pipes and all:\n{script}"
    );
}

#[test]
fn a_job_knows_nothing_about_where_anything_lives() {
    let script = job::render("make", &Dict::new());
    assert!(
        !script.contains("REAPER_WORK=") && !script.contains("cd "),
        "the job must not set the workspace up for itself:\n{script}"
    );
}

#[test]
fn a_profile_overlays_the_verbs_environment() {
    let verb = dict(&[("KEEP", "verb"), ("SHARED", "verb")]);
    let profile = dict(&[("SHARED", "profile"), ("ADDED", "profile")]);

    let merged = job::overlay(&verb, Some(&profile));
    assert_eq!(merged.get("KEEP").unwrap(), "verb");
    assert_eq!(merged.get("ADDED").unwrap(), "profile");
    // The profile wins.
    assert_eq!(merged.get("SHARED").unwrap(), "profile");

    let alone = job::overlay(&verb, None);
    assert_eq!(alone.len(), 2);
    assert_eq!(alone.get("KEEP").unwrap(), "verb");
    assert_eq!(alone.get("SHARED").unwrap(), "verb");
}

#[test]
fn an_apostrophe_closes_escapes_and_reopens() {
    assert_eq!(job::quote("it's"), "'it'\\''s'");
    assert_eq!(job::quote(""), "''");
}

#[test]
fn a_script_is_exact() {
    let script = job::render("make", &dict(&[("B", "2"), ("A", "1")]));
    let a = script.find("A='1'").expect("A is set");
    let b = script.find("B='2'").expect("B is set");
    let cmd = script.find("make").expect("the command is there");
    assert!(a < b && b < cmd, "{script}");
}

#[test]
fn a_word_is_quoted_only_where_it_has_to_be() {
    assert_eq!(job::word("before-the-bad_step.2"), "before-the-bad_step.2");
    assert_eq!(job::word("a b"), "'a b'");
    assert_eq!(job::word("x;reboot"), "'x;reboot'");
    assert_eq!(job::word(""), "''");
}
