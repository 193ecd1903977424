//! A strict reader for the INI-like `setup.cfg` project metadata.
use vstd::prelude::*;

use crate::error::concat3;
use crate::text::{
    chars_of, slice, string_of, text_lines, text_lines_exec, trim, trim_exec, trim_start,
    trim_start_exec,
};

verus! {

// ---- Kinds of lines ------------------------------------------------------------

pub open spec fn is_comment_char(c: char) -> bool {
    c == '#' || c == ';'
}

pub open spec fn is_separator(c: char) -> bool {
    c == '=' || c == ':'
}

/// A line whose first non-whitespace character is `#` or `;`.
pub open spec fn comment_line(line: Seq<char>) -> bool {
    let u = trim_start(line);
    u.len() > 0 && is_comment_char(u[0])
}

pub open spec fn blank_line(line: Seq<char>) -> bool {
    trim(line).len() == 0
}

pub open spec fn indented_line(line: Seq<char>) -> bool {
    line.len() > 0 && (line[0] == ' ' || line[0] == '\t')
}

/// What is wrong with the brackets of a line, if anything.
pub open spec fn section_error(line: Seq<char>) -> Option<Seq<char>> {
    let opens = line.len() > 0 && line[0] == '[';
    let closes = line.len() > 0 && line.last() == ']';
    if opens && !closes {
        Some("missing closing bracket"@)
    } else if closes && !opens {
        Some("missing opening bracket"@)
    } else if line == seq!['[', ']'] {
        Some("empty section"@)
    } else {
        None
    }
}

/// The name of a section header `[name]`.
pub open spec fn section_of(line: Seq<char>) -> Option<Seq<char>> {
    if line.len() >= 2 && line[0] == '[' && line.last() == ']' {
        Some(line.subrange(1, line.len() - 1))
    } else {
        None
    }
}

/// The first position at or after `i` holding `=` or `:`.
pub open spec fn first_separator_from(line: Seq<char>, i: int) -> Option<int>
    decreases line.len() - i,
{
    if i < 0 || i >= line.len() {
        None
    } else if is_separator(line[i]) {
        Some(i)
    } else {
        first_separator_from(line, i + 1)
    }
}

/// The first position at or after `i` holding `#` or `;`, or the length.
pub open spec fn first_comment_from(line: Seq<char>, i: int) -> int
    decreases line.len() - i,
{
    if i < 0 || i >= line.len() {
        line.len() as int
    } else if is_comment_char(line[i]) {
        i
    } else {
        first_comment_from(line, i + 1)
    }
}

/// `key = value`, or `key: value`, with an optional trailing comment.
pub open spec fn key_value_of(line: Seq<char>) -> Option<(Seq<char>, Seq<char>)> {
    if indented_line(line) {
        None
    } else {
        match first_separator_from(line, 0) {
            None => None,
            Some(p) => if p == line.len() - 1 {
                None
            } else {
                let e = first_comment_from(line, p + 1);
                Some((trim(line.subrange(0, p)), trim(line.subrange(p + 1, e))))
            },
        }
    }
}

/// `key =` or `key:` with nothing after it.
pub open spec fn key_of(line: Seq<char>) -> Option<Seq<char>> {
    if indented_line(line) {
        None
    } else {
        let t = trim(line);
        if t.len() > 0 && is_separator(t.last()) {
            Some(trim(t.drop_last()))
        } else {
            None
        }
    }
}

/// Whether `line` is a comment.
pub fn is_comment(line: &str) -> (r: bool)
    ensures
        r == comment_line(line@),
{
    let u = trim_start_exec(&chars_of(line));
    u.len() > 0 && (u[0] == '#' || u[0] == ';')
}

fn is_comment_v(line: &Vec<char>) -> (r: bool)
    ensures
        r == comment_line(line@),
{
    let u = trim_start_exec(line);
    u.len() > 0 && (u[0] == '#' || u[0] == ';')
}

fn is_blank(line: &Vec<char>) -> (r: bool)
    ensures
        r == blank_line(line@),
{
    trim_exec(line).len() == 0
}

fn is_indented(line: &Vec<char>) -> (r: bool)
    ensures
        r == indented_line(line@),
{
    line.len() > 0 && (line[0] == ' ' || line[0] == '\t')
}

fn is_section(line: &Vec<char>) -> (r: Option<Vec<char>>)
    ensures
        match r {
            Some(name) => section_of(line@) == Some(name@),
            None => section_of(line@) is None,
        },
{
    let n = line.len();
    if n >= 2 && line[0] == '[' && line[n - 1] == ']' {
        Some(slice(line, 1, n - 1))
    } else {
        None
    }
}

fn first_separator(line: &Vec<char>) -> (r: Option<usize>)
    ensures
        match r {
            Some(p) => first_separator_from(line@, 0) == Some(p as int) && p < line@.len(),
            None => first_separator_from(line@, 0) is None,
        },
{
    let mut k: usize = 0;
    while k < line.len()
        invariant
            k <= line.len(),
            first_separator_from(line@, 0) == first_separator_from(line@, k as int),
        decreases line.len() - k,
    {
        if line[k] == '=' || line[k] == ':' {
            return Some(k);
        }
        k = k + 1;
    }
    None
}

fn first_comment(line: &Vec<char>, i: usize) -> (r: usize)
    ensures
        r == first_comment_from(line@, i as int),
{
    let mut k: usize = i;
    while k < line.len()
        invariant
            i <= k,
            first_comment_from(line@, i as int) == first_comment_from(line@, k as int),
        decreases line.len() - k,
    {
        if line[k] == '#' || line[k] == ';' {
            return k;
        }
        k = k + 1;
    }
    line.len()
}

proof fn lemma_first_comment_bounds(line: Seq<char>, i: int)
    requires
        0 <= i <= line.len(),
    ensures
        i <= first_comment_from(line, i) <= line.len(),
    decreases line.len() - i,
{
    if i < line.len() && !is_comment_char(line[i]) {
        lemma_first_comment_bounds(line, i + 1);
    }
}

fn key_value_v(line: &Vec<char>) -> (r: Option<(Vec<char>, Vec<char>)>)
    ensures
        match r {
            Some((k, v)) => key_value_of(line@) == Some((k@, v@)),
            None => key_value_of(line@) is None,
        },
{
    if is_indented(line) {
        return None;
    }
    let p = match first_separator(line) {
        None => return None,
        Some(p) => p,
    };
    if p == line.len() - 1 {
        return None;
    }
    let e = first_comment(line, p + 1);
    proof {
        lemma_first_comment_bounds(line@, p + 1);
    }
    let value = trim_exec(&slice(line, p + 1, e));
    let key = trim_exec(&slice(line, 0, p));
    Some((key, value))
}

/// The key and the value of a `key = value` line.
pub fn is_key_value(line: &str) -> (r: Option<(String, String)>)
    ensures
        match r {
            Some((k, v)) => key_value_of(line@) == Some((k@, v@)),
            None => key_value_of(line@) is None,
        },
{
    match key_value_v(&chars_of(line)) {
        Some((k, v)) => Some((string_of(&k), string_of(&v))),
        None => None,
    }
}

fn key_v(line: &Vec<char>) -> (r: Option<Vec<char>>)
    ensures
        match r {
            Some(k) => key_of(line@) == Some(k@),
            None => key_of(line@) is None,
        },
{
    if is_indented(line) {
        return None;
    }
    let t = trim_exec(line);
    let n = t.len();
    if n > 0 && (t[n - 1] == '=' || t[n - 1] == ':') {
        let k = slice(&t, 0, n - 1);
        assert(k@ =~= t@.drop_last());
        Some(trim_exec(&k))
    } else {
        None
    }
}

/// The key of a `key =` line.
pub fn is_key(line: &str) -> (r: Option<String>)
    ensures
        match r {
            Some(k) => key_of(line@) == Some(k@),
            None => key_of(line@) is None,
        },
{
    match key_v(&chars_of(line)) {
        Some(k) => Some(string_of(&k)),
        None => None,
    }
}

// ---- The model -----------------------------------------------------------------

/// The keys of a section, each with its values, in the order they came.
pub type EntriesView = Seq<(Seq<char>, Seq<Seq<char>>)>;

/// The sections of a file, each with its keys, in the order they came.
pub type CfgView = Seq<(Seq<char>, EntriesView)>;

/// The first position at or after `i` whose name is `name`.
pub open spec fn first_named<V>(s: Seq<(Seq<char>, V)>, name: Seq<char>, i: int) -> Option<int>
    decreases s.len() - i,
{
    if i < 0 || i >= s.len() {
        None
    } else if s[i].0 == name {
        Some(i)
    } else {
        first_named(s, name, i + 1)
    }
}

/// A header `[name]` starts the section `name` afresh.
pub open spec fn set_section(cfg: CfgView, name: Seq<char>) -> CfgView {
    match first_named(cfg, name, 0) {
        Some(i) => cfg.update(i, (name, seq![])),
        None => cfg.push((name, seq![])),
    }
}

pub open spec fn set_entry(es: EntriesView, key: Seq<char>, values: Seq<Seq<char>>) -> EntriesView {
    match first_named(es, key, 0) {
        Some(j) => es.update(j, (key, values)),
        None => es.push((key, values)),
    }
}

/// The key `key` of section `section` gets `values`.
pub open spec fn set_key(
    cfg: CfgView,
    section: Seq<char>,
    key: Seq<char>,
    values: Seq<Seq<char>>,
) -> CfgView {
    match first_named(cfg, section, 0) {
        Some(i) => cfg.update(i, (cfg[i].0, set_entry(cfg[i].1, key, values))),
        None => cfg,
    }
}

/// The value `v` is added to the key `key` of section `section`.
pub open spec fn push_value(cfg: CfgView, section: Seq<char>, key: Seq<char>, v: Seq<char>) -> CfgView {
    match first_named(cfg, section, 0) {
        Some(i) => match first_named(cfg[i].1, key, 0) {
            Some(j) => cfg.update(
                i,
                (cfg[i].0, cfg[i].1.update(j, (cfg[i].1[j].0, cfg[i].1[j].1.push(v)))),
            ),
            None => cfg,
        },
        None => cfg,
    }
}

/// The state of the reader after some lines: the current section, the
/// current key, and what was read.
pub type ReadState = (Seq<char>, Seq<char>, CfgView);

/// What one line, numbered `lineno`, does to the state.
pub open spec fn cfg_step(st: ReadState, line: Seq<char>, lineno: int) -> Result<
    ReadState,
    (int, Seq<char>),
> {
    let (section, key, cfg) = st;
    if comment_line(line) || blank_line(line) {
        Ok(st)
    } else if section_error(line) is Some {
        Err((lineno, section_error(line)->0))
    } else if section_of(line) is Some {
        let name = section_of(line)->0;
        Ok((name, seq![], set_section(cfg, name)))
    } else if key_value_of(line) is Some {
        let (k, v) = key_value_of(line)->0;
        if section.len() == 0 {
            Err((lineno, "key outside section"@))
        } else {
            Ok((section, k, set_key(cfg, section, k, seq![v])))
        }
    } else if key_of(line) is Some {
        let k = key_of(line)->0;
        if section.len() == 0 {
            Err((lineno, "key outside section"@))
        } else {
            Ok((section, k, set_key(cfg, section, k, seq![])))
        }
    } else if !indented_line(line) {
        Err((lineno, "expected indented value"@))
    } else if key.len() == 0 {
        Err((lineno, "value without key"@))
    } else {
        Ok((section, key, push_value(cfg, section, key, trim(line))))
    }
}

/// The state before the first line: no section, no key, nothing read.
pub open spec fn initial_state() -> ReadState {
    (seq![], seq![], seq![])
}

/// The state after reading `lines`, numbered from 1, or the number and the
/// message of the first line that fails.
pub open spec fn cfg_run(lines: Seq<Seq<char>>) -> Result<ReadState, (int, Seq<char>)>
    decreases lines.len(),
{
    if lines.len() == 0 {
        Ok(initial_state())
    } else {
        match cfg_run(lines.drop_last()) {
            Err(e) => Err(e),
            Ok(st) => cfg_step(st, lines.last(), lines.len() as int),
        }
    }
}

#[derive(Debug)]
struct KeyValues {
    key: String,
    values: Vec<String>,
}

#[derive(Debug)]
struct Section {
    name: String,
    contents: Vec<KeyValues>,
}

/// The sections of a `setup.cfg` file.
#[derive(Debug)]
pub struct SetupCfg {
    sections: Vec<Section>,
}

pub open spec fn strings_view(v: Seq<String>) -> Seq<Seq<char>> {
    v.map_values(|s: String| s@)
}

spec fn entries_view(c: Seq<KeyValues>) -> EntriesView {
    c.map_values(|kv: KeyValues| (kv.key@, strings_view(kv.values@)))
}

spec fn sections_view(s: Seq<Section>) -> CfgView {
    s.map_values(|sec: Section| (sec.name@, entries_view(sec.contents@)))
}

impl View for SetupCfg {
    type V = CfgView;

    closed spec fn view(&self) -> CfgView {
        sections_view(self.sections@)
    }
}

/// An error while reading `setup.cfg`: the line number and what is wrong.
#[derive(Debug, PartialEq)]
pub struct ParseError {
    pub lineno: usize,
    pub message: String,
}

impl ParseError {
    fn new(lineno: usize, message: &str) -> (r: Self)
        ensures
            r.lineno == lineno,
            r.message@ == message@,
    {
        ParseError { lineno, message: string_of(&chars_of(message)) }
    }
}

/// An error while looking up a value of `setup.cfg`.
#[derive(Debug, PartialEq)]
pub enum GetterError {
    EmptyValue { key: String },
    MultipleValues { key: String },
    SectionNotFound { name: String },
    KeyNotFound { name: String },
}

/// The message shown to the user for `e`.
pub open spec fn getter_message_of(e: GetterError) -> Seq<char> {
    match e {
        GetterError::MultipleValues { key } => "Multiple values found for key '"@ + key@ + "'"@,
        GetterError::EmptyValue { key } => "No value found for key '"@ + key@ + "'"@,
        GetterError::SectionNotFound { name } => "No section found with name '"@ + name@ + "'"@,
        GetterError::KeyNotFound { name } => "No key found with name '"@ + name@ + "'"@,
    }
}

impl GetterError {
    /// The message shown to the user.
    pub fn message(&self) -> (r: String)
        ensures
            r@ == getter_message_of(*self),
    {
        match self {
            GetterError::MultipleValues { key } => concat3(
                "Multiple values found for key '",
                key.as_str(),
                "'",
            ),
            GetterError::EmptyValue { key } => concat3("No value found for key '", key.as_str(), "'"),
            GetterError::SectionNotFound { name } => concat3(
                "No section found with name '",
                name.as_str(),
                "'",
            ),
            GetterError::KeyNotFound { name } => concat3("No key found with name '", name.as_str(), "'"),
        }
    }
}

fn same_name(a: &String, b: &Vec<char>) -> (r: bool)
    ensures
        r == (a@ == b@),
{
    crate::text::seq_eq(&chars_of(a.as_str()), b)
}

fn copy_strings(v: &Vec<String>) -> (r: Vec<String>)
    ensures
        strings_view(r@) == strings_view(v@),
{
    let mut r: Vec<String> = Vec::new();
    let mut i: usize = 0;
    while i < v.len()
        invariant
            i <= v.len(),
            strings_view(r@) == strings_view(v@.subrange(0, i as int)),
        decreases v.len() - i,
    {
        let ghost r0 = r@;
        let c = v[i].clone();
        assert(c@ == v@[i as int]@);
        r.push(c);
        assert(r@ == r0.push(c));
        assert(strings_view(r@) =~= strings_view(r0).push(c@));
        assert(strings_view(v@.subrange(0, i + 1)) =~= strings_view(v@.subrange(0, i as int)).push(
            v@[i as int]@,
        ));
        i = i + 1;
    }
    assert(v@.subrange(0, v@.len() as int) =~= v@);
    r
}

impl Section {
    fn new(name: &Vec<char>) -> (r: Self)
        ensures
            r.name@ == name@,
            r.contents@.len() == 0,
    {
        Section { name: string_of(name), contents: Vec::new() }
    }

    fn find_key(&self, key: &Vec<char>) -> (r: Option<usize>)
        ensures
            match r {
                Some(j) => first_named(entries_view(self.contents@), key@, 0) == Some(j as int) && j
                    < self.contents@.len(),
                None => first_named(entries_view(self.contents@), key@, 0) is None,
            },
    {
        let ghost es = entries_view(self.contents@);
        let mut j: usize = 0;
        while j < self.contents.len()
            invariant
                j <= self.contents.len(),
                es == entries_view(self.contents@),
                first_named(es, key@, 0) == first_named(es, key@, j as int),
            decreases self.contents.len() - j,
        {
            if same_name(&self.contents[j].key, key) {
                return Some(j);
            }
            j = j + 1;
        }
        None
    }
}

impl SetupCfg {
    fn new() -> (r: Self)
        ensures
            r@ == Seq::<(Seq<char>, EntriesView)>::empty(),
    {
        let r = SetupCfg { sections: Vec::new() };
        assert(r@ =~= Seq::<(Seq<char>, EntriesView)>::empty());
        r
    }

    fn find_section(&self, name: &Vec<char>) -> (r: Option<usize>)
        ensures
            match r {
                Some(i) => first_named(self@, name@, 0) == Some(i as int) && i < self.sections@.len(),
                None => first_named(self@, name@, 0) is None,
            },
    {
        let mut i: usize = 0;
        while i < self.sections.len()
            invariant
                i <= self.sections.len(),
                first_named(self@, name@, 0) == first_named(self@, name@, i as int),
            decreases self.sections.len() - i,
        {
            if same_name(&self.sections[i].name, name) {
                return Some(i);
            }
            i = i + 1;
        }
        None
    }

    /// Whether the file has a section `name`.
    pub fn has_section(&self, name: &str) -> (r: bool)
        ensures
            r == (first_named(self@, name@, 0) is Some),
    {
        self.find_section(&chars_of(name)).is_some()
    }

    fn set_section(&mut self, name: &Vec<char>)
        ensures
            final(self)@ == set_section(old(self)@, name@),
    {
        let sec = Section::new(name);
        assert(entries_view(sec.contents@) =~= seq![]);
        match self.find_section(name) {
            Some(i) => {
                let ghost before = self.sections@;
                self.sections.set(i, sec);
                assert(self@ =~= set_section(sections_view(before), name@));
            },
            None => {
                let ghost before = self.sections@;
                self.sections.push(sec);
                assert(self@ =~= set_section(sections_view(before), name@));
            },
        }
    }

    fn set_key(&mut self, section: &Vec<char>, key: &Vec<char>, values: Vec<String>)
        ensures
            final(self)@ == set_key(old(self)@, section@, key@, strings_view(values@)),
    {
        let i = match self.find_section(section) {
            Some(i) => i,
            None => return,
        };
        let ghost before = self.sections@;
        let mut sec = Section::new(section);
        std::mem::swap(&mut sec, &mut self.sections[i]);
        let ghost old_sec = sec;
        assert(old_sec == before[i as int]);
        let kv = KeyValues { key: string_of(key), values };
        match sec.find_key(key) {
            Some(j) => {
                let ghost c0 = sec.contents@;
                sec.contents.set(j, kv);
                assert(entries_view(sec.contents@) =~= entries_view(c0).update(
                    j as int,
                    (key@, strings_view(values@)),
                ));
            },
            None => {
                let ghost c0 = sec.contents@;
                sec.contents.push(kv);
                assert(entries_view(sec.contents@) =~= entries_view(c0).push(
                    (key@, strings_view(values@)),
                ));
            },
        }
        self.sections.set(i, sec);
        assert(self@ =~= set_key(sections_view(before), section@, key@, strings_view(values@)));
    }

    fn push_value(&mut self, section: &Vec<char>, key: &Vec<char>, v: &Vec<char>)
        ensures
            final(self)@ == push_value(old(self)@, section@, key@, v@),
    {
        let i = match self.find_section(section) {
            Some(i) => i,
            None => return,
        };
        let ghost before = self.sections@;
        let mut sec = Section::new(section);
        std::mem::swap(&mut sec, &mut self.sections[i]);
        assert(sec == before[i as int]);
        match sec.find_key(key) {
            Some(j) => {
                let ghost c0 = sec.contents@;
                let mut kv = KeyValues { key: string_of(&Vec::new()), values: Vec::new() };
                std::mem::swap(&mut kv, &mut sec.contents[j]);
                assert(kv == c0[j as int]);
                let ghost vals0 = kv.values@;
                kv.values.push(string_of(v));
                assert(strings_view(kv.values@) =~= strings_view(vals0).push(v@));
                sec.contents.set(j, kv);
                assert(entries_view(sec.contents@) =~= entries_view(c0).update(
                    j as int,
                    (entries_view(c0)[j as int].0, entries_view(c0)[j as int].1.push(v@)),
                ));
                self.sections.set(i, sec);
                assert(self@ =~= push_value(sections_view(before), section@, key@, v@));
            },
            None => {
                self.sections.set(i, sec);
                assert(self.sections@ =~= before);
            },
        }
    }
}

// ---- Reading ---------------------------------------------------------------------

/// Fails on a line whose brackets are wrong.
fn check_section(lineno: usize, line: &Vec<char>) -> (r: Result<(), ParseError>)
    ensures
        match section_error(line@) {
            Some(m) => r matches Err(e) && e.lineno == lineno && e.message@ == m,
            None => r is Ok,
        },
{
    let opens = line.len() > 0 && line[0] == '[';
    let closes = line.len() > 0 && line[line.len() - 1] == ']';
    if opens && !closes {
        return Err(ParseError::new(lineno, "missing closing bracket"));
    }
    if closes && !opens {
        return Err(ParseError::new(lineno, "missing opening bracket"));
    }
    if line.len() == 2 && opens && closes {
        assert(line@ =~= seq!['[', ']']);
        return Err(ParseError::new(lineno, "empty section"));
    }
    Ok(())
}

/// Fails on a value line that is not indented.
fn check_value(lineno: usize, line: &Vec<char>) -> (r: Result<(), ParseError>)
    ensures
        indented_line(line@) ==> r is Ok,
        !indented_line(line@) ==> (r matches Err(e) && e.lineno == lineno && e.message@
            == "expected indented value"@),
{
    if !is_indented(line) {
        return Err(ParseError::new(lineno, "expected indented value"));
    }
    Ok(())
}

struct Parser {
    section: Vec<char>,
    key: Vec<char>,
    res: SetupCfg,
}

impl Parser {
    spec fn state(&self) -> ReadState {
        (self.section@, self.key@, self.res@)
    }

    fn new() -> (r: Self)
        ensures
            r.state() == initial_state(),
    {
        Parser { section: Vec::new(), key: Vec::new(), res: SetupCfg::new() }
    }

    /// Reads the line numbered `lineno`.
    fn advance(&mut self, line: &Vec<char>, lineno: usize) -> (r: Result<(), ParseError>)
        ensures
            match cfg_step(old(self).state(), line@, lineno as int) {
                Ok(st) => r is Ok && final(self).state() == st,
                Err((n, m)) => r matches Err(e) && e.lineno == n && e.message@ == m,
            },
    {
        if is_comment_v(line) || is_blank(line) {
            return Ok(());
        }
        check_section(lineno, line)?;
        if let Some(name) = is_section(line) {
            self.res.set_section(&name);
            self.section = name;
            self.key = Vec::new();
            return Ok(());
        }
        if let Some((k, v)) = key_value_v(line) {
            if self.section.len() == 0 {
                return Err(ParseError::new(lineno, "key outside section"));
            }
            let values = vec![string_of(&v)];
            assert(strings_view(values@) =~= seq![v@]);
            self.res.set_key(&self.section, &k, values);
            self.key = k;
            return Ok(());
        }
        if let Some(k) = key_v(line) {
            if self.section.len() == 0 {
                return Err(ParseError::new(lineno, "key outside section"));
            }
            let values: Vec<String> = Vec::new();
            assert(strings_view(values@) =~= seq![]);
            self.res.set_key(&self.section, &k, values);
            self.key = k;
            return Ok(());
        }
        check_value(lineno, line)?;
        if self.key.len() == 0 {
            return Err(ParseError::new(lineno, "value without key"));
        }
        let v = trim_exec(line);
        self.res.push_value(&self.section, &self.key, &v);
        Ok(())
    }

    /// Reads all the lines of `text`.
    fn parse(&mut self, text: &str) -> (r: Result<(), ParseError>)
        requires
            old(self).state() == initial_state(),
        ensures
            match cfg_run(text_lines(text@)) {
                Ok(st) => r is Ok && final(self).state() == st,
                Err((n, m)) => r matches Err(e) && e.lineno == n && e.message@ == m,
            },
    {
        let lines = text_lines_exec(text);
        let ghost ls = text_lines(text@);
        let mut j: usize = 0;
        assert(ls.subrange(0, 0) =~= Seq::<Seq<char>>::empty());
        while j < lines.len()
            invariant
                j <= lines.len(),
                lines@.map_values(|l: Vec<char>| l@) == ls,
                ls == text_lines(text@),
                cfg_run(ls.subrange(0, j as int)) == Ok::<ReadState, (int, Seq<char>)>(self.state()),
            decreases lines.len() - j,
        {
            assert(ls.subrange(0, j + 1).drop_last() =~= ls.subrange(0, j as int));
            assert(ls[j as int] == lines[j as int]@);
            let r = self.advance(&lines[j], j + 1);
            if r.is_err() {
                proof {
                    lemma_cfg_run_err(ls, j + 1);
                }
                return r;
            }
            j = j + 1;
        }
        assert(ls.subrange(0, ls.len() as int) =~= ls);
        Ok(())
    }

    fn get(self) -> (r: SetupCfg)
        ensures
            r@ == self.res@,
    {
        self.res
    }
}

/// Once a prefix fails, the whole sequence fails the same way.
proof fn lemma_cfg_run_err(ls: Seq<Seq<char>>, k: int)
    requires
        0 <= k <= ls.len(),
        cfg_run(ls.subrange(0, k)) is Err,
    ensures
        cfg_run(ls) == cfg_run(ls.subrange(0, k)),
    decreases ls.len() - k,
{
    if k < ls.len() {
        assert(ls.subrange(0, k + 1).drop_last() =~= ls.subrange(0, k));
        lemma_cfg_run_err(ls, k + 1);
    } else {
        assert(ls.subrange(0, k) =~= ls);
    }
}

/// Reads the text of a `setup.cfg` file.
pub fn parse(contents: &str) -> (r: Result<SetupCfg, ParseError>)
    ensures
        match cfg_run(text_lines(contents@)) {
            Ok(st) => r matches Ok(c) && c@ == st.2,
            Err((n, m)) => r matches Err(e) && e.lineno == n && e.message@ == m,
        },
{
    let mut parser = Parser::new();
    parser.parse(contents)?;
    Ok(parser.get())
}

// ---- Looking up values -----------------------------------------------------------

/// What `get_multi` owes for `section` and `key` in `cfg`.
pub open spec fn multi_result(
    cfg: CfgView,
    section: Seq<char>,
    key: Seq<char>,
    r: Result<Vec<String>, GetterError>,
) -> bool {
    match first_named(cfg, section, 0) {
        None => r matches Err(GetterError::SectionNotFound { name }) && name@ == section,
        Some(i) => match first_named(cfg[i].1, key, 0) {
            None => r matches Err(GetterError::KeyNotFound { name }) && name@ == key,
            Some(j) => r matches Ok(v) && strings_view(v@) == cfg[i].1[j].1,
        },
    }
}

/// What `get_single` owes for `section` and `key` in `cfg`.
pub open spec fn single_result(
    cfg: CfgView,
    section: Seq<char>,
    key: Seq<char>,
    r: Result<String, GetterError>,
) -> bool {
    match first_named(cfg, section, 0) {
        None => r matches Err(GetterError::SectionNotFound { name }) && name@ == section,
        Some(i) => match first_named(cfg[i].1, key, 0) {
            None => r matches Err(GetterError::KeyNotFound { name }) && name@ == key,
            Some(j) => {
                let values = cfg[i].1[j].1;
                if values.len() > 1 {
                    r matches Err(GetterError::MultipleValues { key: k }) && k@ == key
                } else if values.len() == 0 {
                    r matches Err(GetterError::EmptyValue { key: k }) && k@ == key
                } else {
                    r matches Ok(v) && v@ == values[0]
                }
            },
        },
    }
}

impl SetupCfg {
    /// The values of `key` in `section`.
    pub fn get_multi(&self, section: &str, key: &str) -> (r: Result<Vec<String>, GetterError>)
        ensures
            multi_result(self@, section@, key@, r),
    {
        let i = match self.find_section(&chars_of(section)) {
            Some(i) => i,
            None => return Err(GetterError::SectionNotFound { name: string_of(&chars_of(section)) }),
        };
        let sec = &self.sections[i];
        let j = match sec.find_key(&chars_of(key)) {
            Some(j) => j,
            None => return Err(GetterError::KeyNotFound { name: string_of(&chars_of(key)) }),
        };
        Ok(copy_strings(&sec.contents[j].values))
    }

    /// The one value of `key` in `section`.
    pub fn get_single(&self, section: &str, key: &str) -> (r: Result<String, GetterError>)
        ensures
            single_result(self@, section@, key@, r),
    {
        let values = self.get_multi(section, key)?;
        if values.len() > 1 {
            return Err(GetterError::MultipleValues { key: string_of(&chars_of(key)) });
        }
        if values.len() == 0 {
            return Err(GetterError::EmptyValue { key: string_of(&chars_of(key)) });
        }
        assert(strings_view(values@)[0] == values@[0]@);
        Ok(values[0].clone())
    }

    /// The `name` of the `metadata` section.
    pub fn project_name(&self) -> (r: Result<String, GetterError>)
        ensures
            single_result(self@, "metadata"@, "name"@, r),
    {
        self.get_single("metadata", "name")
    }

    /// The `install_requires` of the `options` section.
    pub fn dependencies(&self) -> (r: Result<Vec<String>, GetterError>)
        ensures
            multi_result(self@, "options"@, "install_requires"@, r),
    {
        self.get_multi("options", "install_requires")
    }

    /// The `dev` extra of the `options.extras_require` section.
    pub fn dev_dependencies(&self) -> (r: Result<Vec<String>, GetterError>)
        ensures
            multi_result(self@, "options.extras_require"@, "dev"@, r),
    {
        self.get_multi("options.extras_require", "dev")
    }

    /// The `prod` extra of the `options.extras_require` section.
    pub fn prod_dependencies(&self) -> (r: Result<Vec<String>, GetterError>)
        ensures
            multi_result(self@, "options.extras_require"@, "prod"@, r),
    {
        self.get_multi("options.extras_require", "prod")
    }
}

} // verus!
