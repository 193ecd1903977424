use dmenv::dependencies::FrozenDependency;
use dmenv::dump::dump;
use dmenv::locate::{parse_git_name, parse_git_ref, parse_simple_version};
use dmenv::parse::{parse, split_logical_lines};
use dmenv::update::{UpdateOptions, Updater};
use dmenv::{Error, Lock};

fn frozen(name: &str, version: &str) -> FrozenDependency {
    FrozenDependency::new(name, version)
}

// ---- Lock ----------------------------------------------------------------

#[test]
fn lock_malformed_lock() {
    let lock_contents = "bar==42\ngit://foo/bar.git@master#egggg=bar";
    let actual = Lock::from_string(&lock_contents);
    let actual = actual.unwrap_err();
    match actual {
        Error::MalformedLock { line, .. } => assert_eq!(line, 2),
        _ => panic!("Expecting MalformedLock, got: {:?}", actual),
    }
}

#[test]
fn simple_bump() {
    let lock_contents = "bar==0.3\nfoo==0.42\n";
    let mut lock = Lock::from_string(lock_contents).unwrap();
    let changed = lock.bump("foo", "0.43").unwrap();
    assert!(changed);
    let expected = lock_contents.replace("0.42", "0.43");
    let actual = lock.to_string();
    assert_eq!(actual, expected);
}

#[test]
fn lock_dep_not_found() {
    let lock_contents = "bar==0.3\nfoo==0.42\n";
    let mut lock = Lock::from_string(lock_contents).unwrap();
    let actual = lock.bump("no-such", "0.43");
    match actual {
        Err(Error::NothingToBump { name }) => assert_eq!(name, "no-such"),
        _ => panic!("Expecting NothingToBump, got: {:?}", actual),
    }
}

#[test]
fn idem_potent_change() {
    let lock_contents = "bar==0.3\nfoo==0.42\n";
    let mut lock = Lock::from_string(lock_contents).unwrap();
    let changed = lock.bump("bar", "0.3").unwrap();
    let actual = lock.to_string();
    assert!(!changed);
    assert_eq!(actual, lock_contents.to_string());
}

#[test]
fn git_bump() {
    let old_sha1 = "dae42f";
    let lock_contents = format!("git@example.com/bar.git@{}#egg=bar\n", old_sha1);
    let mut lock = Lock::from_string(&lock_contents).unwrap();
    let new_sha1 = "cda431";
    let changed = lock.git_bump("bar", new_sha1).unwrap();
    assert!(changed);
    let expected = lock_contents.replace(old_sha1, new_sha1);
    let actual = lock.to_string();
    assert_eq!(actual, expected);
}

fn assert_freeze(contents: &str, frozen: &[FrozenDependency], expected: &str) {
    let mut lock = Lock::from_string(contents).unwrap();
    lock.freeze(frozen);
    let actual = lock.to_string();
    assert_eq!(actual, expected);
}

#[test]
fn freeze_simple_bump() {
    assert_freeze("foo==0.42\n", &[frozen("foo", "0.43")], "foo==0.43\n");
}

#[test]
fn freeze_keep_old_deps() {
    assert_freeze("bar==1.3\nfoo==0.42\n", &[frozen("foo", "0.43")], "bar==1.3\nfoo==0.43\n");
}

#[test]
fn freeze_keep_git_deps() {
    assert_freeze(
        "git@example.com:bar/foo.git@master#egg=foo\n",
        &[frozen("foo", "0.42")],
        "git@example.com:bar/foo.git@master#egg=foo\n",
    );
}

#[test]
fn freeze_keep_specifications() {
    assert_freeze(
        "foo == 1.3 ; python_version >= '3.6'\n",
        &[frozen("foo", "1.4")],
        "foo == 1.4 ; python_version >= '3.6'\n",
    );
}

#[test]
fn freeze_add_new_deps() {
    assert_freeze("", &[frozen("foo", "0.42")], "foo==0.42\n");
}

#[test]
fn freeze_different_version() {
    let mut lock = Lock::from_string("foo==0.42\n").unwrap();
    lock.python_version("< '3.6'");
    lock.freeze(&[frozen("foo", "0.42"), frozen("bar", "1.3")]);
    let actual = lock.to_string();
    assert_eq!(actual, "bar==1.3 ; python_version < '3.6'\nfoo==0.42\n");
}

#[test]
fn freeze_different_platform() {
    let mut lock = Lock::from_string("foo==0.42\n").unwrap();
    lock.sys_platform("win32");
    lock.freeze(&[frozen("foo", "0.42"), frozen("winapi", "1.3")]);
    let actual = lock.to_string();
    assert_eq!(actual, "foo==0.42\nwinapi==1.3 ; sys_platform == 'win32'\n");
}

// ---- Free functions on entries ---------------------------------------------

#[test]
fn bump_simple_change() {
    let lock_contents = "bar==0.3\nfoo==0.42\n";
    let mut deps = parse(&lock_contents).unwrap();
    let changed = dmenv::bump::simple_bump(&mut deps, "foo", "0.43").unwrap();
    assert!(changed);
    let actual = dump(&deps);
    assert_eq!(actual, "bar==0.3\nfoo==0.43\n");
}

#[test]
fn bump_simple_no_change() {
    let lock_contents = "bar==0.3\nfoo==0.42\n";
    let mut deps = parse(&lock_contents).unwrap();
    let changed = dmenv::bump::simple_bump(&mut deps, "foo", "0.42").unwrap();
    assert!(!changed);
    let actual = dump(&deps);
    assert_eq!(actual, "bar==0.3\nfoo==0.42\n");
}

#[test]
fn bump_dep_not_found() {
    let lock_contents = "bar==0.3\nfoo==0.42\n";
    let mut deps = parse(&lock_contents).unwrap();
    let actual_error = dmenv::bump::simple_bump(&mut deps, "no-such", "1.2");
    match actual_error {
        Err(Error::NothingToBump { name }) => assert_eq!(name, "no-such"),
        _ => panic!("Expecting NothingToBump, got: {:?}", actual_error),
    }
}

#[test]
fn bump_bump_git_ref() {
    let lock_contents = "git@example.com/bar.git@dae42f#egg=bar\n";
    let mut deps = parse(&lock_contents).unwrap();
    let changed = dmenv::bump::git_bump(&mut deps, "bar", "cda431").unwrap();
    assert!(changed);
    let actual = dump(&deps);
    let expected = "git@example.com/bar.git@cda431#egg=bar\n";
    assert_eq!(actual, expected);
}

// ---- Parser ------------------------------------------------------------------

#[test]
fn parse_malformed_lock() {
    let lock_contents = "bar==42\ngit://foo/bar.git@master#egggg=bar";
    let actual = parse(&lock_contents);
    let actual = actual.unwrap_err();
    match actual {
        Error::MalformedLock { .. } => (),
        _ => panic!("Expecting MalformedLock, got: {:?}", actual),
    }
}

#[test]
fn test_split_into_logical_lines() {
    let text = "\
foo
bar \\
  baz
";
    let lines = split_logical_lines(text);
    assert_eq!(lines.len(), 2);
    assert_eq!(lines[0], "foo\n");
    assert_eq!(lines[1], "bar \\\n  baz\n");
}

#[test]
fn test_no_newline_at_the_end() {
    let lines = split_logical_lines("foo\nbar");
    assert_eq!(lines.len(), 2);
    assert_eq!(lines[0], "foo\n");
    assert_eq!(lines[1], "bar\n");
}

#[test]
fn test_parse_lock() {
    let text = "\
foo==0.42
git+ssh://git@host.tld:team/name.git@v0.32#egg=bar
";
    let actual_deps = parse(text).unwrap();

    assert_eq!(actual_deps.len(), 2);
}

#[test]
fn test_parse_simple_version() {
    assert_eq!(parse_simple_version("foo == 0.42").value, "0.42");
    assert_eq!(parse_simple_version("foo == 0.42").start, 7);
    assert_eq!(parse_simple_version("foo == 0.42").end, 11);
    assert_eq!(
        parse_simple_version("foo == 0.42 ; python_version > '3.3'").value,
        "0.42"
    );
    assert_eq!(
        parse_simple_version("foo == 0.42\\ --hash=sha256:32fde42").value,
        "0.42"
    );
    assert_eq!(
        parse_simple_version("foo == 0.42#this is a comment").value,
        "0.42"
    );
}

#[test]
fn test_parse_git_ref() {
    assert_eq!(
        parse_git_ref("foo@host.tld@v0.42#egg=foo").unwrap().value,
        "v0.42"
    );
}

#[test]
fn test_parse_git_name() {
    assert_eq!(parse_git_name("foo@host.tld@v0.42#egg=foo"), "foo");
}

// ---- Updater -----------------------------------------------------------------

fn assert_update(
    updater: Updater,
    initial_contents: &str,
    frozen: &[FrozenDependency],
    final_contents: &str,
) {
    let mut locked = parse(initial_contents).unwrap();
    updater.update(&mut locked, frozen);
    let actual = dump(&locked);
    assert_eq!(actual, final_contents);
}

#[test]
fn simple_dependency_upgraded() {
    let updater = Updater::new();
    assert_update(updater, "foo==0.42\n", &[frozen("foo", "0.43")], "foo==0.43\n")
}

#[test]
fn keep_old_deps() {
    let updater = Updater::new();
    assert_update(
        updater,
        "bar==1.3\nfoo==0.42\n",
        &[frozen("foo", "0.43")],
        "bar==1.3\nfoo==0.43\n",
    );
}

#[test]
fn from_scratch() {
    let frozen_deps = vec![frozen("bar", "1.3"), frozen("foo", "0.42")];
    let updater = Updater::new();
    assert_update(updater, "", &frozen_deps, "bar==1.3\nfoo==0.42\n");
}

#[test]
fn keep_git_deps() {
    let updater = Updater::new();
    assert_update(
        updater,
        "git@example.com:bar/foo.git@master#egg=foo\n",
        &[frozen("foo", "0.42")],
        "git@example.com:bar/foo.git@master#egg=foo\n",
    );
}

#[test]
fn keep_specifications() {
    let updater = Updater::new();
    assert_update(
        updater,
        "foo == 1.3 ; python_version >= '3.6'\n",
        &[frozen("foo", "1.4")],
        "foo == 1.4 ; python_version >= '3.6'\n",
    );
}

#[test]
fn add_new_deps() {
    let updater = Updater::new();
    assert_update(updater, "bar==6.2\n", &[frozen("foo", "0.42")], "bar==6.2\nfoo==0.42\n");
}

#[test]
fn different_python_version() {
    let mut updater = Updater::new();
    updater.set_options(UpdateOptions {
        python_version: Some("< '3.6'".to_string()),
        sys_platform: None,
    });
    assert_update(
        updater,
        "foo==0.42\n",
        &[frozen("bar", "1.3"), frozen("foo", "0.42")],
        "bar==1.3 ; python_version < '3.6'\nfoo==0.42\n",
    );
}

#[test]
fn different_platform() {
    let mut updater = Updater::new();
    updater.set_options(UpdateOptions {
        python_version: None,
        sys_platform: Some("win32".to_string()),
    });
    assert_update(
        updater,
        "foo==0.42\n",
        &[frozen("foo", "0.42"), frozen("winapi", "1.3")],
        "foo==0.42\nwinapi==1.3 ; sys_platform == 'win32'\n",
    );
}
