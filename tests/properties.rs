use dmenv::bump::{git_bump as bump_git, simple_bump as bump_simple};
use dmenv::dependencies::{FrozenDependency, LockedDependency, SimpleDependency};
use dmenv::dump::dump;
use dmenv::locate::{parse_git_line, parse_line, parse_simple_line};
use dmenv::parse::{parse, split_logical_lines};
use dmenv::{new_error, Error, Lock};

fn round(text: &str) -> String {
    dump(&parse(text).unwrap())
}

#[test]
fn round_trip_is_idempotent() {
    let text = "# pinned\nZope==4.0\n\nattrs==19.2.0 ; python_version >= '3.6'\n\
                pkg==1.0 \\\n    --hash=sha256:abc\ngit+https://h/x.git@v1#egg=x\nBar==2\n";
    let once = round(text);
    assert_eq!(
        once,
        "attrs==19.2.0 ; python_version >= '3.6'\nBar==2\ngit+https://h/x.git@v1#egg=x\n\
         pkg==1.0 \\\n    --hash=sha256:abc\nZope==4.0\n"
    );
    assert_eq!(round(&once), once);
}

#[test]
fn round_trip_of_empty_text() {
    assert_eq!(round(""), "\n");
    assert_eq!(round("\n"), "\n");
    assert_eq!(round("# only a comment\n   \n"), "\n");
}

#[test]
fn bump_to_current_value_changes_nothing() {
    let text = "bar==0.3\ngit@h:o/foo.git@master#egg=foo\n";
    let mut deps = parse(text).unwrap();
    assert_eq!(bump_simple(&mut deps, "bar", "0.3").unwrap(), false);
    assert_eq!(bump_git(&mut deps, "foo", "master").unwrap(), false);
    assert_eq!(dump(&deps), text);
}

#[test]
fn bump_precision() {
    let mut deps = parse("bar==0.3\nfoo==0.42\n").unwrap();
    assert!(bump_simple(&mut deps, "foo", "0.43").unwrap());
    assert_eq!(dump(&deps), "bar==0.3\nfoo==0.43\n");
}

#[test]
fn bump_keeps_the_marker() {
    let mut deps = vec![parse_line("foo==0.42 ; python_version >= '3.6'").unwrap()];
    assert!(bump_simple(&mut deps, "foo", "0.43").unwrap());
    assert_eq!(deps[0].line(), "foo==0.43 ; python_version >= '3.6'");
    assert_eq!(deps[0].version(), "0.43");
}

#[test]
fn bump_keeps_padding_and_comment() {
    let mut lock = Lock::from_string("foo == 0.42   # pinned by hand\n").unwrap();
    assert!(lock.bump("foo", "1.0").unwrap());
    assert_eq!(lock.to_string(), "foo == 1.0   # pinned by hand\n");
}

#[test]
fn bump_with_two_entries_is_ambiguous() {
    let text = "foo==1.0\nfoo==2.0 ; sys_platform == 'win32'\n";
    let mut deps = parse(text).unwrap();
    match bump_simple(&mut deps, "foo", "3.0") {
        Err(Error::MultipleBumps { name }) => assert_eq!(name, "foo"),
        other => panic!("Expecting MultipleBumps, got: {:?}", other),
    }
    assert_eq!(dump(&deps), text);
}

#[test]
fn bump_matches_the_exact_name() {
    let mut deps = parse("Foo==1.0\nfoobar==1.0\n").unwrap();
    match bump_simple(&mut deps, "foo", "2.0") {
        Err(Error::NothingToBump { name }) => assert_eq!(name, "foo"),
        other => panic!("Expecting NothingToBump, got: {:?}", other),
    }
}

#[test]
fn bump_of_the_wrong_kind_fails() {
    let mut deps = parse("foo==1.0\ngit@h:o/bar.git@master#egg=bar\n").unwrap();
    match bump_git(&mut deps, "foo", "deadbeef") {
        Err(Error::IncorrectLockedType { name, expected_type }) => {
            assert_eq!(name, "foo");
            assert_eq!(expected_type, "git");
        }
        other => panic!("Expecting IncorrectLockedType, got: {:?}", other),
    }
    match bump_simple(&mut deps, "bar", "1.0") {
        Err(Error::IncorrectLockedType { name, expected_type }) => {
            assert_eq!(name, "bar");
            assert_eq!(expected_type, "simple");
        }
        other => panic!("Expecting IncorrectLockedType, got: {:?}", other),
    }
    assert_eq!(dump(&deps), "foo==1.0\ngit@h:o/bar.git@master#egg=bar\n");
}

#[test]
fn reconcile_marks_only_new_entries() {
    let mut lock = Lock::from_string("foo==0.42\n").unwrap();
    lock.python_version("< '3.6'");
    lock.freeze(&[FrozenDependency::new("foo", "0.42"), FrozenDependency::new("bar", "1.3")]);
    assert_eq!(lock.to_string(), "bar==1.3 ; python_version < '3.6'\nfoo==0.42\n");
}

#[test]
fn reconcile_with_both_markers() {
    let mut lock = Lock::from_string("").unwrap();
    lock.python_version("< '3.6'");
    lock.sys_platform("win32");
    lock.freeze(&[FrozenDependency::new("bar", "1.3")]);
    assert_eq!(
        lock.to_string(),
        "bar==1.3 ; python_version < '3.6' ; sys_platform == 'win32'\n"
    );
}

#[test]
fn reconcile_leaves_source_references_alone() {
    let text = "git@host:org/foo.git@master#egg=foo\n";
    let mut lock = Lock::from_string(text).unwrap();
    lock.freeze(&[FrozenDependency::new("foo", "0.42")]);
    assert_eq!(lock.to_string(), text);
}

#[test]
fn reconcile_never_removes_entries() {
    let mut lock = Lock::from_string("gone==1.0\nkept==1.0\n").unwrap();
    lock.freeze(&[FrozenDependency::new("kept", "2.0")]);
    assert_eq!(lock.to_string(), "gone==1.0\nkept==2.0\n");
}

#[test]
fn malformed_line_number() {
    match parse("bar==42\ngit://foo/bar.git@master#egggg=bar") {
        Err(Error::MalformedLock { line, details }) => {
            assert_eq!(line, 2);
            assert_eq!(
                details,
                "Could not parse line `git://foo/bar.git@master#egggg=bar` as either a simple or a git dependency"
            );
        }
        other => panic!("Expecting MalformedLock, got: {:?}", other),
    }
}

#[test]
fn malformed_line_number_counts_physical_lines() {
    let text = "# header\nfoo==1.0 \\\n    --hash=sha256:abc\n\nnot a dependency\n";
    match parse(text) {
        Err(Error::MalformedLock { line, .. }) => assert_eq!(line, 5),
        other => panic!("Expecting MalformedLock, got: {:?}", other),
    }
}

#[test]
fn missing_version_is_malformed() {
    match parse("ok==1\nfoo==   \n") {
        Err(Error::MalformedLock { line, details }) => {
            assert_eq!(line, 2);
            assert_eq!(details, "expecting a version after `==` in line `foo==`");
        }
        other => panic!("Expecting MalformedLock, got: {:?}", other),
    }
}

#[test]
fn bad_source_reference_is_malformed() {
    let cases = [
        (
            "git+https://h/r.git#egg=r\n",
            "expecting `<ref>#egg=<name>` after `@`, got 'git+https://h/r.git#egg=r'",
        ),
        (
            "git@h:o/r.git@v1#x#egg=r\n",
            "expecting `<ref>#egg=<name>` after `@`, got 'v1#x#egg=r'",
        ),
    ];
    for (text, expected) in cases {
        match parse(text) {
            Err(Error::MalformedLock { line, details }) => {
                assert_eq!(line, 1);
                assert_eq!(details, expected);
            }
            other => panic!("Expecting MalformedLock, got: {:?}", other),
        }
    }
}

#[test]
fn continuation_at_the_end_is_one_line() {
    let deps = parse("foo==1.0\nbar==2.0 \\").unwrap();
    assert_eq!(deps.len(), 2);
    assert_eq!(deps[1].version(), "2.0");
    assert_eq!(dump(&deps), "bar==2.0 \\\nfoo==1.0\n");
    let deps = parse("a==1\\").unwrap();
    assert_eq!(deps[0].name(), "a");
    assert_eq!(deps[0].version(), "1");
}

#[test]
fn source_reference_takes_precedence_over_pin() {
    let dep = parse_line("git+https://h/a==b.git@v2#egg=ab").unwrap();
    match dep {
        LockedDependency::Git(g) => {
            assert_eq!(g.name, "ab");
            assert_eq!(g.git_ref.value, "v2");
        }
        other => panic!("Expecting a git entry, got: {:?}", other),
    }
}

#[test]
fn simple_line_locates_the_version() {
    let dep = parse_simple_line("  foo  ==   1.2.3;python_version>'3'").unwrap();
    assert_eq!(dep.name, "foo");
    assert_eq!(dep.version.value, "1.2.3;python_version>'3'");
    assert_eq!(dep.version.start, 12);
    let dep = parse_simple_line("foo==1.0\n").unwrap();
    assert_eq!(dep.version.value, "1.0");
    assert_eq!(dep.version.end, 8);
}

#[test]
fn git_line_locates_the_reference() {
    let dep = parse_git_line("git@github.com:org/repo.git@v1.2#egg=repo").unwrap();
    assert_eq!(dep.name, "repo");
    assert_eq!(dep.git_ref.value, "v1.2");
    assert_eq!(dep.git_ref.start, 28);
    assert_eq!(dep.git_ref.end, 32);
}

#[test]
fn dump_sorts_without_case() {
    let deps = parse("zope==1\nBar==1\napple==1\n").unwrap();
    assert_eq!(dump(&deps), "apple==1\nBar==1\nzope==1\n");
}

#[test]
fn dump_keeps_the_order_of_equal_keys() {
    let deps = parse("FOO==1\nfoo==1\n").unwrap();
    assert_eq!(dump(&deps), "FOO==1\nfoo==1\n");
    let deps = parse("foo==1\nFOO==1\n").unwrap();
    assert_eq!(dump(&deps), "foo==1\nFOO==1\n");
}

#[test]
fn dump_ends_with_a_newline() {
    let deps = vec![parse_line("foo==1").unwrap(), parse_line("bar==2").unwrap()];
    assert_eq!(dump(&deps), "bar==2\nfoo==1\n");
    assert_eq!(dump(&[]), "\n");
}

#[test]
fn logical_lines_keep_a_dangling_continuation() {
    let lines = split_logical_lines("a \\\nb\nc \\");
    assert_eq!(lines, ["a \\\nb\n", "c \\\n"]);
}

#[test]
fn frozen_line_reading() {
    let f = FrozenDependency::from_string("attrs==19.2.0").unwrap();
    assert_eq!(f.name, "attrs");
    assert_eq!(f.version, "19.2.0");
    for bad in ["attrs", "attrs==", "a==b==c"] {
        match FrozenDependency::from_string(bad) {
            Err(Error::ParsePipFreezeError { line }) => assert_eq!(line, bad),
            other => panic!("Expecting ParsePipFreezeError, got: {:?}", other),
        }
    }
}

#[test]
fn new_entry_from_frozen() {
    let mut dep = SimpleDependency::from_frozen(&FrozenDependency::new("foo", "1.0"));
    assert_eq!(dep.line, "foo==1.0\n");
    assert_eq!(dep.name, "foo");
    assert_eq!((dep.version.start, dep.version.end), (5, 8));
    dep.sys_platform("linux");
    assert_eq!(dep.line, "foo==1.0 ; sys_platform == 'linux'\n");
    assert_eq!(dep.version.value, "1.0");
}

#[test]
fn other_error() {
    match new_error("boom".to_string()) {
        Error::Other { message } => assert_eq!(message, "boom"),
        other => panic!("Expecting Other, got: {:?}", other),
    }
}

#[test]
fn offsets_count_bytes() {
    let dep = parse_simple_line("é==1").unwrap();
    assert_eq!((dep.version.start, dep.version.end), (4, 5));
    assert_eq!(&dep.line[dep.version.start..dep.version.end], "1");
    let dep = parse_git_line("git@hôte:o/r.git@v1#egg=r").unwrap();
    assert_eq!(&dep.line[dep.git_ref.start..dep.git_ref.end], "v1");
}

#[test]
fn bump_after_non_ascii_text() {
    let mut deps = parse("ünïcode == 1.0 ; python_version >= 'ä'\n").unwrap();
    assert!(bump_simple(&mut deps, "ünïcode", "2.0").unwrap());
    assert_eq!(dump(&deps), "ünïcode == 2.0 ; python_version >= 'ä'\n");
    match &deps[0] {
        LockedDependency::Simple(s) => assert_eq!(&s.line[s.version.start..s.version.end], "2.0"),
        other => panic!("Expecting a simple entry, got: {:?}", other),
    }
}

#[test]
fn reconcile_twice_changes_nothing() {
    let frozen = [
        FrozenDependency::new("foo", "0.43"),
        FrozenDependency::new("bar", "1.3"),
    ];
    let mut lock = Lock::from_string("foo==0.42 ; sys_platform == 'win32'\ngit@h:o/x.git@v1#egg=x\n").unwrap();
    lock.python_version("< '3.6'");
    lock.freeze(&frozen);
    let once = lock.to_string();
    assert_eq!(
        once,
        "bar==1.3 ; python_version < '3.6'\nfoo==0.43 ; sys_platform == 'win32'\ngit@h:o/x.git@v1#egg=x\n"
    );
    lock.freeze(&frozen);
    assert_eq!(lock.to_string(), once);
}
