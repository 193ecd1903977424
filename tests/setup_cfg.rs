use dmenv::setup_cfg::{is_comment, is_key, is_key_value, parse, GetterError, SetupCfg};

#[test]
fn test_is_comment() {
    assert!(is_comment("; foo"));
    assert!(is_comment("   # inddented comment "));
}

#[test]
fn test_is_key() {
    assert_eq!(is_key("foo ="), Some("foo".to_string()));
    assert_eq!(is_key("foo:"), Some("foo".to_string()));
}

#[test]
fn test_is_key_value_equal_sep() {
    assert_eq!(
        is_key_value("foo = bar"),
        Some(("foo".to_string(), "bar".to_string()))
    );
}

#[test]
fn test_is_key_value_colon_sep() {
    assert_eq!(
        is_key_value("foo: bar"),
        Some(("foo".to_string(), "bar".to_string()))
    );
}

#[test]
fn test_is_key_value_trailing_comment() {
    assert_eq!(
        is_key_value("foo=bar  # comment"),
        Some(("foo".to_string(), "bar".to_string()))
    );
}

fn assert_parse<F>(text: &str, matcher: F)
where
    F: Fn(&SetupCfg) -> bool,
{
    let parsed = parse(text);
    let parsed = parsed.unwrap_or_else(|e| panic!("\nCould not parse: \n{}\n: {:?}", text, e));
    let outcome = matcher(&parsed);
    if !outcome {
        panic!("parse(\n{}\n)={:#?}", text, &parsed);
    }
}

#[test]
fn test_one_section() {
    let text = "[foo]";
    assert_parse(text, |x| x.has_section("foo"));
}

#[test]
fn test_two_sections() {
    let text = "[s1]\nbar=42\n[s2]\n";
    assert_parse(text, |x| x.has_section("s1"));
    assert_parse(text, |x| x.has_section("s2"));
}

#[test]
fn test_one_key_value() {
    let text = "[foo]\nbar=42";
    assert_parse(text, |x| x.get_single("foo", "bar").unwrap() == "42");
}

#[test]
fn test_blank_lines() {
    let text = "[s1]\nbar=42\n\n[s2]";
    assert_parse(text, |x| x.get_single("s1", "bar").unwrap() == "42");
}

#[test]
fn test_two_key_values() {
    let text = "[foo]\nbar=42\nbaz=true";
    assert_parse(text, |x| x.get_single("foo", "bar").unwrap() == "42");
    assert_parse(text, |x| x.get_single("foo", "baz").unwrap() == "true");
}

#[test]
fn test_one_key_one_value() {
    let text = "[foo]\nbar=\n  42";
    assert_parse(text, |x| x.get_single("foo", "bar").unwrap() == "42");
}

#[test]
fn test_one_key_two_values() {
    let text = "[foo]\nbar=\n  one\n  two";
    assert_parse(text, |x| x.get_multi("foo", "bar").unwrap() == ["one", "two"]);
}

#[test]
fn test_one_key_empty_value() {
    let text = "[foo]\nbar=\n";
    assert_parse(text, |x| x.get_multi("foo", "bar").unwrap().is_empty())
}

fn assert_parse_error(text: &str, lineno: usize) {
    let parsed = parse(text);
    let err = parsed.unwrap_err();
    assert_eq!(err.lineno, lineno);
}

#[test]
fn test_one_key_no_value() {
    let text = "[foo]\nbar";
    assert_parse_error(text, 2);
}

#[test]
fn test_key_value_outside_section() {
    let text = "bar = 42";
    assert_parse_error(text, 1);
}

#[test]
fn test_key_outside_section() {
    let text = "bar=";
    assert_parse_error(text, 1);
}

#[test]
fn test_missing_closing_bracket() {
    let text = "[foo]\nspam=42\n[bad\n";
    assert_parse_error(text, 3);
}

#[test]
fn test_missing_opening_bracket() {
    let text = "[foo]\nspam=42\nbad]\n";
    assert_parse_error(text, 3);
}

#[test]
fn test_empty_section() {
    let text = "[foo]\nspam=42\n[]eggs=true\n";
    assert_parse_error(text, 3);
}

#[test]
fn test_non_indented_value() {
    let text = "\
[options.extras_require]
dev =
  pytest
foo
";
    assert_parse_error(text, 4);
}

fn assert_get_error<F, R>(text: &str, get_func: F, expected_error: GetterError)
where
    F: Fn(&SetupCfg) -> Result<R, GetterError>,
    R: std::fmt::Debug,
{
    let parsed = parse(text);
    let parsed = parsed.unwrap_or_else(|e| panic!("\nCould not parse: \n{}\n: {:?}", text, e));
    let outcome = get_func(&parsed);
    let actual_error = outcome.unwrap_err();
    assert_eq!(actual_error, expected_error)
}

#[test]
fn test_get_single_on_empty_value() {
    let text = "[foo]\nbar=\n";
    assert_get_error(
        text,
        |x| x.get_single("foo", "bar"),
        GetterError::EmptyValue {
            key: "bar".to_string(),
        },
    );
}

#[test]
fn test_get_single_on_multi_value() {
    let text = "[foo]\nmy_list = \n  one \n two";
    assert_get_error(
        text,
        |x| x.get_single("foo", "my_list"),
        GetterError::MultipleValues {
            key: "my_list".to_string(),
        },
    );
}

fn does_not_crash_when_parsing(text: &str) {
    let _res = parse(text);
}

// The upstream configparser fixtures are not shipped with this crate: these
// texts exercise the same odd syntax (comments of both kinds, continuation
// lines, colons, empty values, keys outside sections, bad brackets).
#[test]
fn test_cpython_test1() {
    let cfg1 = "[Foo Bar]\nfoo=bar\n[Spacey Bar]\nfoo = bar\n[Commented Bar]\nfoo: bar ; comment\n\
                [Long Line]\nfoo: this line is much, much longer than my editor\n   likes it.\n\
                [Section\\with$weird%characters[\t]\n[Internationalized Stuff]\nfoo[bg]: Bulgarian\n";
    does_not_crash_when_parsing(cfg1);
}

#[test]
fn test_cpython_test2() {
    let cfg2 = "# comment\n; other comment\n[Foo]\n  indented=yes\nkey\n";
    does_not_crash_when_parsing(cfg2);
}

#[test]
fn test_cpython_test3() {
    let cfg3 = "no section = here\n[ ]\n[]\n\r\n[a]\r\nb = c\r\n  d\r\n";
    does_not_crash_when_parsing(cfg3);
}

#[test]
fn getters_name_their_section_and_key() {
    let cfg = parse("[metadata]\nname = foo\n[options]\ninstall_requires =\n  path.py\n  attrs\n").unwrap();
    assert_eq!(cfg.project_name().unwrap(), "foo");
    assert_eq!(cfg.dependencies().unwrap(), ["path.py", "attrs"]);
    assert_eq!(
        cfg.dev_dependencies().unwrap_err(),
        GetterError::SectionNotFound {
            name: "options.extras_require".to_string()
        }
    );
    assert_eq!(
        cfg.get_multi("options", "nosuch").unwrap_err(),
        GetterError::KeyNotFound {
            name: "nosuch".to_string()
        }
    );
}

#[test]
fn section_header_resets_the_section() {
    let cfg = parse("[a]\nx = 1\n[a]\ny = 2\n").unwrap();
    assert!(cfg.get_single("a", "x").is_err());
    assert_eq!(cfg.get_single("a", "y").unwrap(), "2");
}

#[test]
fn value_without_key_is_an_error() {
    let err = parse("[a]\n  orphan\n").unwrap_err();
    assert_eq!(err.lineno, 2);
    assert_eq!(err.message, "value without key");
}

#[test]
fn crlf_lines_are_read_like_lf_lines() {
    let cfg = parse("[extras]\r\nprod =\r\n  gunicorn\r\n").unwrap();
    assert_eq!(cfg.get_multi("extras", "prod").unwrap(), ["gunicorn"]);
    assert!(cfg.prod_dependencies().is_err());
}
