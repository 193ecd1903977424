use dmenv::dependencies::FrozenDependency;
use dmenv::dump::{dump, dump_sorted};
use dmenv::lock::lock_file_contents;
use dmenv::parse::parse;
use dmenv::python_version::{accept_python_version, parse_python_version};
use dmenv::setup_cfg::GetterError;
use dmenv::update::tidy_deps;
use dmenv::{Error, Metadata, PathsResolver, Settings};

#[test]
fn cmd_test_parse_python_version_ok() {
    assert_eq!("< '3.6'", parse_python_version("< '3.6'").unwrap());
}

#[test]
fn cmd_test_parse_python_version_no_comparison() {
    parse_python_version("3.6").unwrap_err();
}

#[test]
fn cmd_test_parse_python_version_not_quoted() {
    parse_python_version("<= 3.6").unwrap_err();
}

#[test]
fn python_version_double_quotes() {
    assert_eq!(parse_python_version(">= \"3.7\"").unwrap(), ">= \"3.7\"");
    assert!(parse_python_version("<  '3.6'").is_err());
    assert!(parse_python_version("~= '3.6'").is_err());
}

#[test]
fn python_version_given_the_match() {
    assert_eq!(accept_python_version("< '3.6'", Some(true)).unwrap(), "< '3.6'");
    for matched in [Some(false), None] {
        match accept_python_version("< '3.6'", matched) {
            Err(Error::Other { message }) => {
                assert_eq!(message, "should match something like `<= '3.6'`")
            }
            other => panic!("Expecting Other, got: {:?}", other),
        }
    }
}

#[test]
fn tidy_keeps_what_is_installed() {
    let deps = parse("attrs==19.2.0\nappdirs==1.4\ngit@h:o/x.git@v1#egg=x\n").unwrap();
    let frozen = [FrozenDependency::new("x", "1.0"), FrozenDependency::new("attrs", "19.2.0")];
    let (keep, remove) = tidy_deps(deps, &frozen);
    assert_eq!(dump(&keep), "attrs==19.2.0\ngit@h:o/x.git@v1#egg=x\n");
    assert_eq!(remove.len(), 1);
    assert_eq!(remove[0].name(), "appdirs");
}

#[test]
fn lock_file_starts_with_a_header() {
    let metadata = Metadata {
        dmenv_version: "0.20.0".to_string(),
        python_platform: "linux".to_string(),
        python_version: "3.7.1".to_string(),
    };
    let text = lock_file_contents(&metadata, "foo==1\n");
    assert_eq!(text, "# Generated with dmenv 0.20.0, python 3.7.1, on linux\nfoo==1\n");
    assert_eq!(dump(&parse(&text).unwrap()), "foo==1\n");
}

fn resolver(settings: &Settings) -> PathsResolver {
    PathsResolver::new("/tmp/foo".to_string(), "3.7".to_string(), settings)
}

#[test]
fn venv_sub_dir_contains_python_version() {
    let settings = Settings::default();
    assert_eq!(resolver(&settings).sub_dir(), "dev/3.7");
    assert_eq!(resolver(&settings).lock_file_name(), "requirements.lock");
}

#[test]
fn venv_sub_dir_prod_differs_from_dev() {
    let settings = Settings::from_shell(true, false, false, false);
    assert_eq!(resolver(&settings).sub_dir(), "prod/3.7");
    assert_eq!(resolver(&settings).lock_file_name(), "production.lock");
}

#[test]
fn venv_sub_dir_system_site_packages_differs() {
    let settings = Settings::from_shell(false, true, true, true);
    assert_eq!(resolver(&settings).sub_dir(), "dev-system/3.7");
    assert!(!settings.venv_from_stdlib);
    assert!(settings.venv_outside_project);
}

#[test]
fn dump_sorted_follows_the_given_keys() {
    let lines = vec!["b==1".to_string(), "A==1\n".to_string(), "a==2".to_string()];
    let keys = vec!["b".to_string(), "a".to_string(), "a".to_string()];
    assert_eq!(dump_sorted(&lines, &keys), "A==1\na==2\nb==1\n");
    let keys = vec!["a".to_string(), "c".to_string(), "b".to_string()];
    assert_eq!(dump_sorted(&lines, &keys), "b==1\na==2\nA==1\n");
    assert_eq!(dump_sorted(&vec![], &vec![]), "\n");
}

#[test]
fn freeze_sets_the_version() {
    let mut dep = dmenv::locate::parse_simple_line("foo==0.42 ; python_version >= '3.6'").unwrap();
    dep.freeze("0.43");
    assert_eq!(dep.line, "foo==0.43 ; python_version >= '3.6'");
}

#[test]
fn error_messages() {
    let e = Error::NothingToBump { name: "foo".to_string() };
    assert_eq!(e.message(), "'foo' not found in lock");
    let e = Error::MultipleBumps { name: "foo".to_string() };
    assert_eq!(e.message(), "multiple matches found for 'foo' in lock");
    let e = Error::IncorrectLockedType { name: "foo".to_string(), expected_type: "git".to_string() };
    assert_eq!(e.message(), "foo is not a git dependency");
    let e = Error::MalformedLock { line: 3, details: "oops".to_string() };
    assert_eq!(e.message(), "Malformed lock: oops");
    let e = Error::ParsePipFreezeError { line: "x".to_string() };
    assert_eq!(e.message(), "could not parse `pip freeze` output at line: 'x'");
    let e = Error::MalformedSetupCfg { path: "setup.cfg".to_string(), message: "line 2: bad".to_string() };
    assert_eq!(e.message(), "Could not parse setup.cfg\nline 2: bad");
    let e = Error::Other { message: "boom".to_string() };
    assert_eq!(e.message(), "boom");
}

#[test]
fn getter_error_messages() {
    let e = GetterError::MultipleValues { key: "k".to_string() };
    assert_eq!(e.message(), "Multiple values found for key 'k'");
    let e = GetterError::EmptyValue { key: "k".to_string() };
    assert_eq!(e.message(), "No value found for key 'k'");
    let e = GetterError::SectionNotFound { name: "s".to_string() };
    assert_eq!(e.message(), "No section found with name 's'");
    let e = GetterError::KeyNotFound { name: "k".to_string() };
    assert_eq!(e.message(), "No key found with name 'k'");
}
