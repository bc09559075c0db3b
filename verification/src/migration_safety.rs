//! Safety gates for database migrations.
//!
//! Every schema migration is analysed before it is merged: statements that take
//! long-lived table locks, changes that break the live production schema, and missing
//! or incomplete rollback scripts are refused. The analysis inspects the text alone.

use vstd::prelude::*;
#[allow(unused_imports)]
use vstd::string::*;
use crate::strmap::StrMap;
#[allow(unused_imports)]
use crate::text::{
    alphanumeric, at_position, chars, contains, debug_list, dec, decimal, decimal_four, either_holds, four_digits,
    four_more, is_alphanumeric, join, joined, list_debug, lowercase, occurs, occurs_at, replace, replaced,
    replacing_adds_none, replacing_leaves_none, replacing_nothing, same, split, split_on, split_words, strip_end,
    text_of, three_end, to_lowercase, to_uppercase, trim, trim_end_matches, trimmed, two_end, uppercase, views, words,
    written_text_occurs,
};

verus! {

/// One versioned migration under review.
#[derive(Debug, Clone, PartialEq, Eq)]
pub struct MigrationFile {
    /// Schema version, e.g. `7`.
    pub version: u32,
    /// Human-readable name, e.g. `add_ledger_index`.
    pub name: String,
    /// Forward DDL/DML to apply.
    pub up_sql: String,
    /// Rollback script that must undo the forward migration.
    pub down_sql: String,
}

/// A known production column used for compatibility checks.
#[derive(Debug, Clone, PartialEq, Eq)]
pub struct ProdColumn {
    /// Column name.
    pub name: String,
    /// Declared type, lowercased (e.g. `bigint`, `text`).
    pub data_type: String,
    /// Whether the column is nullable.
    pub nullable: bool,
}

/// Minimal live-production schema snapshot: the known columns of each table.
#[derive(Debug)]
pub struct ProductionSchema {
    pub tables: StrMap<Vec<ProdColumn>>,
}

impl Default for ProductionSchema {
    fn default() -> (s: Self)
        ensures
            s.tables@ == Map::<Seq<char>, Vec<ProdColumn>>::empty(),
    {
        ProductionSchema { tables: StrMap::new() }
    }
}

impl ProductionSchema {
    /// An empty snapshot (no production tables known).
    pub fn new() -> (s: Self)
        ensures
            s.tables@ == Map::<Seq<char>, Vec<ProdColumn>>::empty(),
    {
        Self::default()
    }

    /// Register `table` with its `columns`.
    pub fn with_table(self, table: &str, columns: Vec<ProdColumn>) -> (s: Self)
        ensures
            s.tables@ == self.tables@.insert(table@, columns),
    {
        let mut tables = self.tables;
        tables.insert(table.to_owned(), columns);
        ProductionSchema { tables }
    }
}

/// Helper to build a [`ProdColumn`] in tests and callers.
pub fn prod_column(name: &str, data_type: &str, nullable: bool) -> (c: ProdColumn)
    ensures
        c.name@ == name@,
        c.data_type@ == lowercase(data_type@),
        c.nullable == nullable,
{
    ProdColumn { name: name.to_owned(), data_type: to_lowercase(data_type), nullable }
}

/// The three safety gates applied to every migration.
#[derive(Debug, Clone, Copy, PartialEq, Eq, Structural, Hash)]
pub enum Gate {
    /// Table-lock duration risk analysis.
    LockRisk,
    /// Backward compatibility against the live production schema.
    BackwardCompatibility,
    /// Rollback migration existence and plausibility.
    Rollback,
}

impl Gate {
    /// How a migration gate is called.
    pub open spec fn label(self) -> Seq<char> {
        match self {
            Gate::LockRisk => "lock-risk"@,
            Gate::BackwardCompatibility => "backward-compatibility"@,
            Gate::Rollback => "rollback"@,
        }
    }

    /// How a migration gate is called.
    pub fn name(&self) -> (s: &'static str)
        ensures
            s@ == self.label(),
    {
        match self {
            Gate::LockRisk => "lock-risk",
            Gate::BackwardCompatibility => "backward-compatibility",
            Gate::Rollback => "rollback",
        }
    }
}

/// Outcome of a single gate.
#[derive(Debug, Clone, PartialEq, Eq)]
pub struct GateResult {
    /// Which gate ran.
    pub gate: Gate,
    /// Whether the migration may proceed.
    pub passed: bool,
    /// Human-readable explanation, including the offending statement.
    pub details: String,
}

impl GateResult {
    /// A passing result for `gate`.
    pub fn pass(gate: Gate, details: String) -> (r: Self)
        ensures
            r.gate == gate,
            r.passed,
            r.details == details,
    {
        GateResult { gate, passed: true, details }
    }

    /// A failing result for `gate`.
    pub fn fail(gate: Gate, details: String) -> (r: Self)
        ensures
            r.gate == gate,
            !r.passed,
            r.details == details,
    {
        GateResult { gate, passed: false, details }
    }
}

/// Where a place in a script lies.
#[derive(Debug, Clone, Copy, PartialEq, Eq, Structural)]
pub enum Place {
    Code,
    /// In a word of the code, past its first character.
    Word,
    /// In a string.
    Single,
    /// In a string in which a backslash takes the next character as it is.
    Escaped,
    /// In a quoted name.
    Double,
    /// In a comment that ends with its line.
    Line,
    /// In a comment that ends with its mark.
    Block,
}

/// A character of a word.
pub open spec fn is_word(c: char) -> bool {
    is_alphanumeric(c) || c == '_'
}

/// How many characters of a word `s` starts with.
pub open spec fn word_len(s: Seq<char>) -> nat
    decreases s.len(),
{
    if s.len() == 0 || !is_word(s[0]) {
        0
    } else {
        1 + word_len(s.skip(1))
    }
}

/// Where `mark` next occurs in `s`, from `from` on.
pub open spec fn next_mark(s: Seq<char>, mark: Seq<char>, from: int) -> Option<int>
    decreases s.len() - from,
{
    if from >= s.len() {
        None
    } else if occurs_at(s, mark, from) {
        Some(from)
    } else {
        next_mark(s, mark, from + 1)
    }
}

/// Whether text in dollar quotes starts here, as `$$it's$$` or `$body$it's$body$`: how long its
/// mark is, and where the mark comes again.
pub open spec fn dollar_quote(s: Seq<char>) -> Option<(int, int)> {
    let n: int = 2 + word_len(s.skip(1)) as int;
    if s.len() > n && s[0] == '$' && s[n - 1] == '$' && !('0' <= s[1] <= '9') {
        match next_mark(s, s.take(n), n) {
            Some(k) => Some((n, k)),
            None => None,
        }
    } else {
        None
    }
}

/// Text in dollar quotes stands between its marks.
pub proof fn dollar_quotes_close(s: Seq<char>)
    ensures
        dollar_quote(s) matches Some((n, k)) ==> 2 <= n <= k && k + n <= s.len(),
{
    let n: int = 2 + word_len(s.skip(1)) as int;
    if s.len() > n {
        next_mark_bounds(s, s.take(n), n);
    }
}

/// A mark that is found lies where it was looked for.
proof fn next_mark_bounds(s: Seq<char>, mark: Seq<char>, from: int)
    ensures
        next_mark(s, mark, from) matches Some(k) ==> from <= k && k + mark.len() <= s.len(),
    decreases s.len() - from,
{
    if from < s.len() && !occurs_at(s, mark, from) {
        next_mark_bounds(s, mark, from + 1);
    }
}

/// What is left of a script from a place on, without its comments. A semicolon outside quotes
/// ends its line. Text in dollar quotes is a script of its own, a `body`, whose lines end only
/// where they do in the text.
pub open spec fn code_of(s: Seq<char>, at: Place, body: bool) -> Seq<char>
    decreases s.len(),
{
    if s.len() == 0 {
        Seq::empty()
    } else if at == Place::Word && (is_word(s[0]) || s[0] == '$') {
        seq![s[0]] + code_of(s.skip(1), Place::Word, body)
    } else {
        match at {
            Place::Code | Place::Word => if s.len() > 1 && s[0] == '-' && s[1] == '-' {
                code_of(s.skip(2), Place::Line, body)
            } else if s.len() > 1 && s[0] == '/' && s[1] == '*' {
                seq![' '] + code_of(s.skip(2), Place::Block, body)
            } else if dollar_quote(s) is Some {
                let (n, k) = dollar_quote(s)->0;
                proof {
                    dollar_quotes_close(s);
                }
                s.take(n) + code_of(s.subrange(n, k), Place::Code, true) + s.take(n) + code_of(
                    s.skip(k + n),
                    Place::Code,
                    body,
                )
            } else if s.len() > 1 && (s[0] == 'E' || s[0] == 'e') && s[1] == '\'' {
                s.take(2) + code_of(s.skip(2), Place::Escaped, body)
            } else if s[0] == ';' && !body {
                seq![';', '\n'] + code_of(s.skip(1), Place::Code, body)
            } else if s[0] == '\'' {
                seq![s[0]] + code_of(s.skip(1), Place::Single, body)
            } else if s[0] == '"' {
                seq![s[0]] + code_of(s.skip(1), Place::Double, body)
            } else if is_word(s[0]) {
                seq![s[0]] + code_of(s.skip(1), Place::Word, body)
            } else {
                seq![s[0]] + code_of(s.skip(1), Place::Code, body)
            },
            Place::Single => seq![s[0]] + code_of(
                s.skip(1),
                if s[0] == '\'' {
                    Place::Code
                } else {
                    Place::Single
                },
                body,
            ),
            Place::Escaped => if s.len() > 1 && (s[0] == '\\' || s[0] == '\'' && s[1] == '\'') {
                s.take(2) + code_of(s.skip(2), Place::Escaped, body)
            } else {
                seq![s[0]] + code_of(
                    s.skip(1),
                    if s[0] == '\'' {
                        Place::Code
                    } else {
                        Place::Escaped
                    },
                    body,
                )
            },
            Place::Double => seq![s[0]] + code_of(
                s.skip(1),
                if s[0] == '"' {
                    Place::Code
                } else {
                    Place::Double
                },
                body,
            ),
            Place::Line => if s[0] == '\n' {
                seq![s[0]] + code_of(s.skip(1), Place::Code, body)
            } else {
                code_of(s.skip(1), Place::Line, body)
            },
            Place::Block => if s.len() > 1 && s[0] == '*' && s[1] == '/' {
                code_of(s.skip(2), Place::Code, body)
            } else {
                code_of(s.skip(1), Place::Block, body)
            },
        }
    }
}

/// Whether `c` is part of a word.
fn in_word(c: char) -> (r: bool)
    ensures
        r == is_word(c),
{
    alphanumeric(c) || c == '_'
}

/// The characters `v[from..to]`.
fn piece(v: &Vec<char>, from: usize, to: usize) -> (out: Vec<char>)
    requires
        from <= to <= v@.len(),
    ensures
        out@ == v@.subrange(from as int, to as int),
{
    chars(text_of(v, from, to).as_str())
}

/// Whether text in dollar quotes starts `v`: how long its mark is, and where the mark comes again.
fn find_dollar_quote(v: &Vec<char>) -> (r: Option<(usize, usize)>)
    ensures
        match dollar_quote(v@) {
            Some((n, k)) => r == Some((n as usize, k as usize)) && 2 <= n <= k && k + n <= v@.len(),
            None => r is None,
        },
{
    if v.len() < 2 || v[0] != '$' || ('0' <= v[1] && v[1] <= '9') {
        return None;
    }
    let mut j: usize = 1;
    while j < v.len() && in_word(v[j])
        invariant
            1 <= j <= v@.len(),
            word_len(v@.skip(1)) == j - 1 + word_len(v@.skip(j as int)),
        decreases v@.len() - j,
    {
        proof {
            assert(v@.skip(j as int).skip(1) =~= v@.skip(j as int + 1));
            assert(v@.skip(j as int)[0] == v@[j as int]);
        }
        j = j + 1;
    }
    proof {
        if j < v@.len() {
            assert(v@.skip(j as int)[0] == v@[j as int]);
        }
        assert(word_len(v@.skip(1)) == j - 1);
        dollar_quotes_close(v@);
    }
    if v.len() - j < 2 || v[j] != '$' {
        return None;
    }
    let n: usize = j + 1;
    let mark = piece(v, 0, n);
    proof {
        assert(mark@ =~= v@.take(n as int));
    }
    let mut k: usize = n;
    while k < v.len()
        invariant
            n <= k <= v@.len(),
            mark@ == v@.take(n as int),
            next_mark(v@, mark@, n as int) == next_mark(v@, mark@, k as int),
            dollar_quote(v@) == (match next_mark(v@, mark@, n as int) {
                Some(at) => Some((n as int, at)),
                None => None,
            }),
            dollar_quote(v@) matches Some((a, b)) ==> 2 <= a <= b && b + a <= v@.len(),
        decreases v@.len() - k,
    {
        if at_position(v, &mark, k) {
            return Some((n, k));
        }
        k = k + 1;
    }
    None
}

/// What a script reads at one place: what it adds to the code, how far it reaches, and where
/// the next place lies.
fn read_place(v: &Vec<char>, i: usize, at: Place, body: bool) -> (r: (Vec<char>, usize, Place))
    requires
        i < v@.len(),
    ensures
        i < r.1 <= v@.len(),
        code_of(v@.skip(i as int), at, body) == r.0@ + code_of(v@.skip(r.1 as int), r.2, body),
    decreases v@.len(), 1int,
{
    let c: char = v[i];
    let next: char = if v.len() - i > 1 {
        v[i + 1]
    } else {
        ' '
    };
    let ghost rest = v@.skip(i as int);
    proof {
        assert(rest[0] == c);
        assert(rest.skip(1) =~= v@.skip(i as int + 1));
        if i + 1 < v@.len() {
            assert(rest[1] == next);
            assert(rest.skip(2) =~= v@.skip(i as int + 2));
            assert(rest.take(2) =~= seq![c, next]);
        }
    }
    let mut out: Vec<char> = Vec::new();
    let ghost nothing = out@;
    if at == Place::Word && (in_word(c) || c == '$') {
        out.push(c);
        proof {
            assert(out@ =~= seq![c]);
        }
        return (out, i + 1, Place::Word);
    }
    match at {
        Place::Code | Place::Word => {
            if c == '-' && next == '-' {
                proof {
                    let more = code_of(v@.skip(i as int + 2), Place::Line, body);
                    assert(nothing + more =~= more);
                }
                return (out, i + 2, Place::Line);
            }
            if c == '/' && next == '*' {
                out.push(' ');
                proof {
                    assert(out@ =~= seq![' ']);
                }
                return (out, i + 2, Place::Block);
            }
            let end: usize = v.len();
            let ahead = piece(v, i, end);
            proof {
                assert(ahead@ =~= rest);
            }
            if let Some((n, k)) = find_dollar_quote(&ahead) {
                return read_dollar_quote(v, i, at, body, n, k);
            }
            out.push(c);
            if (c == 'E' || c == 'e') && next == '\'' {
                out.push(next);
                proof {
                    assert(out@ =~= seq![c, next]);
                }
                return (out, i + 2, Place::Escaped);
            }
            if c == ';' && !body {
                out.push('\n');
                proof {
                    assert(out@ =~= seq![';', '\n']);
                }
                return (out, i + 1, Place::Code);
            }
            proof {
                assert(out@ =~= seq![c]);
            }
            let after = if c == '\'' {
                Place::Single
            } else if c == '"' {
                Place::Double
            } else if in_word(c) {
                Place::Word
            } else {
                Place::Code
            };
            (out, i + 1, after)
        },
        Place::Single => {
            out.push(c);
            proof {
                assert(out@ =~= seq![c]);
            }
            (
                out,
                i + 1,
                if c == '\'' {
                    Place::Code
                } else {
                    Place::Single
                },
            )
        },
        Place::Escaped => {
            out.push(c);
            if v.len() - i > 1 && (c == '\\' || c == '\'' && next == '\'') {
                out.push(next);
                proof {
                    assert(out@ =~= seq![c, next]);
                }
                return (out, i + 2, Place::Escaped);
            }
            proof {
                assert(out@ =~= seq![c]);
            }
            (
                out,
                i + 1,
                if c == '\'' {
                    Place::Code
                } else {
                    Place::Escaped
                },
            )
        },
        Place::Double => {
            out.push(c);
            proof {
                assert(out@ =~= seq![c]);
            }
            (
                out,
                i + 1,
                if c == '"' {
                    Place::Code
                } else {
                    Place::Double
                },
            )
        },
        Place::Line => {
            if c == '\n' {
                out.push(c);
                proof {
                    assert(out@ =~= seq![c]);
                }
                return (out, i + 1, Place::Code);
            }
            proof {
                let more = code_of(v@.skip(i as int + 1), Place::Line, body);
                assert(nothing + more =~= more);
            }
            (out, i + 1, Place::Line)
        },
        Place::Block => {
            if c == '*' && next == '/' {
                proof {
                    let more = code_of(v@.skip(i as int + 2), Place::Code, body);
                    assert(nothing + more =~= more);
                }
                return (out, i + 2, Place::Code);
            }
            proof {
                let more = code_of(v@.skip(i as int + 1), Place::Block, body);
                assert(nothing + more =~= more);
            }
            (out, i + 1, Place::Block)
        },
    }
}

/// What a script reads where text in dollar quotes starts, with a mark of `n` characters that
/// comes again `k` characters on.
fn read_dollar_quote(v: &Vec<char>, i: usize, at: Place, body: bool, n: usize, k: usize) -> (r: (
    Vec<char>,
    usize,
    Place,
))
    requires
        i < v@.len(),
        2 <= n <= k,
        i + k + n <= v.len(),
        code_of(v@.skip(i as int), at, body) == v@.skip(i as int).take(n as int) + code_of(
            v@.skip(i as int).subrange(n as int, k as int),
            Place::Code,
            true,
        ) + v@.skip(i as int).take(n as int) + code_of(v@.skip(i as int).skip(k + n), Place::Code, body),
    ensures
        i < r.1 <= v@.len(),
        code_of(v@.skip(i as int), at, body) == r.0@ + code_of(v@.skip(r.1 as int), r.2, body),
    decreases v@.len(), 0int,
{
    let to: usize = i + k + n;
    let ghost rest = v@.skip(i as int);
    let mut out = piece(v, i, i + n);
    let mut mark = piece(v, i, i + n);
    let inner = piece(v, i + n, i + k);
    let mut code = code_in(&inner, true);
    proof {
        assert(inner@ =~= rest.subrange(n as int, k as int));
        assert(mark@ =~= rest.take(n as int));
        assert(rest.skip(k + n) =~= v@.skip(to as int));
    }
    let ghost held = code@;
    out.append(&mut code);
    out.append(&mut mark);
    proof {
        assert(out@ =~= rest.take(n as int) + held + rest.take(n as int));
    }
    (out, to, Place::Code)
}

/// The characters of a script, or of a body in dollar quotes, without their comments.
fn code_in(v: &Vec<char>, body: bool) -> (out: Vec<char>)
    ensures
        out@ == code_of(v@, Place::Code, body),
    decreases v@.len(), 2int,
{
    let mut out: Vec<char> = Vec::new();
    let mut at = Place::Code;
    let mut i: usize = 0;
    proof {
        assert(v@.skip(0) =~= v@);
        assert(out@ + code_of(v@, Place::Code, body) =~= code_of(v@, Place::Code, body));
    }
    while i < v.len()
        invariant
            i <= v@.len(),
            code_of(v@, Place::Code, body) == out@ + code_of(v@.skip(i as int), at, body),
        decreases v@.len() - i,
    {
        let (mut more, to, after) = read_place(v, i, at, body);
        let ghost was = out@;
        let ghost part = more@;
        out.append(&mut more);
        proof {
            let rest = code_of(v@.skip(to as int), after, body);
            assert(was + (part + rest) =~= out@ + rest);
        }
        i = to;
        at = after;
    }
    proof {
        assert(v@.skip(i as int) =~= Seq::<char>::empty());
        assert(out@ + Seq::<char>::empty() =~= out@);
    }
    out
}

/// A script without its comments.
pub fn without_comments(sql: &str) -> (out: String)
    ensures
        out@ == code_of(sql@, Place::Code, false),
{
    let code = code_in(&chars(sql), false);
    let n: usize = code.len();
    proof {
        assert(code@.subrange(0, n as int) =~= code@);
    }
    text_of(&code, 0, n)
}

/// What the lines read so far amount to: the finished statements, and the text of the
/// one under way.
pub struct Parse {
    pub done: Seq<Seq<char>>,
    pub current: Seq<char>,
}

/// A statement's text without its end mark and surrounding white space.
pub open spec fn bare(current: Seq<char>) -> Seq<char> {
    trimmed(strip_end(trimmed(current), ';'))
}

/// The finished statements with the one under way, in upper case, unless it is empty.
pub open spec fn closed_off(p: Parse) -> Seq<Seq<char>> {
    if bare(p.current).len() == 0 {
        p.done
    } else {
        p.done.push(uppercase(bare(p.current)))
    }
}

/// What one more line does: blank lines are passed over, and a line that ends in a semicolon
/// ends the statement.
pub open spec fn read_line(p: Parse, line: Seq<char>) -> Parse {
    let t = trimmed(line);
    if t.len() == 0 {
        p
    } else {
        let current = (p.current + t).push(' ');
        if t.last() == ';' {
            Parse { done: closed_off(Parse { done: p.done, current }), current: Seq::empty() }
        } else {
            Parse { done: p.done, current }
        }
    }
}

/// What `lines` amount to.
pub open spec fn read_lines(lines: Seq<Seq<char>>) -> Parse
    decreases lines.len(),
{
    if lines.len() == 0 {
        Parse { done: Seq::empty(), current: Seq::empty() }
    } else {
        read_line(read_lines(lines.drop_last()), lines.last())
    }
}

/// The statements of a script, in upper case and without comments.
pub open spec fn statements_of(sql: Seq<char>) -> Seq<Seq<char>> {
    closed_off(read_lines(split(code_of(sql, Place::Code, false), '\n')))
}

/// Adds the statement under way, in upper case, unless it is empty.
fn close_off(out: &mut Vec<String>, current: &str)
    ensures
        views(final(out)@) == closed_off(Parse { done: views(old(out)@), current: current@ }),
{
    let stmt = trim(trim_end_matches(trim(current).as_str(), ';').as_str());
    if !stmt.as_str().is_empty() {
        out.push(to_uppercase(stmt.as_str()));
    }
    proof {
        assert(views(out@) =~= closed_off(Parse { done: views(old(out)@), current: current@ }));
    }
}

/// Split SQL into uppercased, comment-free statements.
pub fn statements(sql: &str) -> (out: Vec<String>)
    ensures
        views(out@) == statements_of(sql@),
{
    let lines = split_on(without_comments(sql).as_str(), '\n');
    let ghost all = views(lines@);
    let mut out: Vec<String> = Vec::new();
    let mut current = String::new();
    let mut i: usize = 0;
    proof {
        assert(views(out@) =~= Seq::<Seq<char>>::empty());
        assert(all.take(0) =~= Seq::<Seq<char>>::empty());
    }
    while i < lines.len()
        invariant
            i <= lines@.len(),
            all == views(lines@),
            (Parse { done: views(out@), current: current@ }) == read_lines(all.take(i as int)),
        decreases lines@.len() - i,
    {
        proof {
            assert(all.take(i as int + 1).drop_last() =~= all.take(i as int));
            assert(all.take(i as int + 1).last() == lines@[i as int]@);
        }
        let t = trim(lines[i].as_str());
        if !t.as_str().is_empty() {
            current.append(t.as_str());
            current.push(' ');
            let v = chars(t.as_str());
            if v[v.len() - 1] == ';' {
                close_off(&mut out, current.as_str());
                current = String::new();
            }
        }
        i = i + 1;
    }
    proof {
        assert(all.take(all.len() as int) =~= all);
    }
    close_off(&mut out, current.as_str());
    out
}

/// A character that is not part of a name it stands next to.
pub open spec fn is_edge(c: char) -> bool {
    c == '"' || c == ';' || c == '(' || c == ','
}

/// `s` without such characters at its start.
pub open spec fn edge_start(s: Seq<char>) -> Seq<char>
    decreases s.len(),
{
    if s.len() > 0 && is_edge(s[0]) {
        edge_start(s.drop_first())
    } else {
        s
    }
}

/// `s` without such characters at its end.
pub open spec fn edge_end(s: Seq<char>) -> Seq<char>
    decreases s.len(),
{
    if s.len() > 0 && is_edge(s.last()) {
        edge_end(s.drop_last())
    } else {
        s
    }
}

/// The name that a token holds.
pub open spec fn token_name(token: Seq<char>) -> Seq<char> {
    lowercase(edge_end(edge_start(token)))
}

/// `name` can be the name of a table.
pub open spec fn is_table_name(name: Seq<char>) -> bool {
    &&& name.len() > 0
    &&& name != "if"@
    &&& name != "concurrently"@
    &&& !name.contains('.')
    &&& forall|i: int| 0 <= i < name.len() ==> is_alphanumeric(#[trigger] name[i]) || name[i] == '_'
}

/// A table's name follows this word.
pub open spec fn introduces_table(word: Seq<char>) -> bool {
    word == "TABLE"@ || word == "INTO"@ || word == "FROM"@ || word == "UPDATE"@ || word == "ON"@
}

/// The tables named after the first `k` words.
pub open spec fn tables_after(tokens: Seq<Seq<char>>, k: int) -> Seq<Seq<char>>
    decreases k,
{
    if k <= 0 {
        Seq::empty()
    } else {
        let rest = tables_after(tokens, k - 1);
        if introduces_table(tokens[k - 1]) && k < tokens.len() && is_table_name(token_name(tokens[k])) {
            rest.push(token_name(tokens[k]))
        } else {
            rest
        }
    }
}

/// The tables that a statement names.
pub open spec fn tables_of(stmt: Seq<char>) -> Seq<Seq<char>> {
    tables_after(words(stmt), words(stmt).len() as int)
}

/// Whether `c` is not part of a name.
fn edge(c: char) -> (r: bool)
    ensures
        r == is_edge(c),
{
    c == '"' || c == ';' || c == '(' || c == ','
}

/// `s` without edge characters at either end.
fn trim_edges(s: &str) -> (out: String)
    ensures
        out@ == edge_end(edge_start(s@)),
{
    let v = chars(s);
    let mut from: usize = 0;
    proof {
        assert(v@.skip(0) =~= v@);
    }
    while from < v.len() && edge(v[from])
        invariant
            from <= v@.len(),
            v@ == s@,
            edge_start(s@) == edge_start(v@.skip(from as int)),
        decreases v@.len() - from,
    {
        proof {
            assert(v@.skip(from as int).drop_first() =~= v@.skip(from as int + 1));
        }
        from = from + 1;
    }
    let mut to: usize = v.len();
    proof {
        assert(v@.skip(from as int) =~= v@.subrange(from as int, to as int));
    }
    while to > from && edge(v[to - 1])
        invariant
            from <= to <= v@.len(),
            edge_start(s@) == v@.skip(from as int),
            edge_end(edge_start(s@)) == edge_end(v@.subrange(from as int, to as int)),
        decreases to,
    {
        proof {
            assert(v@.subrange(from as int, to as int).drop_last() =~= v@.subrange(from as int, to as int - 1));
        }
        to = to - 1;
    }
    text_of(&v, from, to)
}

/// Whether `name` can be the name of a table.
fn table_name(name: &str) -> (r: bool)
    ensures
        r == is_table_name(name@),
{
    if name.is_empty() || same(name, "if") || same(name, "concurrently") {
        return false;
    }
    let v = chars(name);
    let mut i: usize = 0;
    while i < v.len()
        invariant
            i <= v@.len(),
            v@ == name@,
            forall|k: int| 0 <= k < i ==> v@[k] != '.' && (is_alphanumeric(#[trigger] v@[k]) || v@[k] == '_'),
        decreases v@.len() - i,
    {
        if v[i] == '.' {
            return false;
        }
        if !(alphanumeric(v[i]) || v[i] == '_') {
            return false;
        }
        i = i + 1;
    }
    true
}

/// Best-effort table names referenced by a statement. The name of an index is passed
/// over; its table follows `ON`.
pub fn referenced_tables(stmt: &str) -> (tables: Vec<String>)
    ensures
        views(tables@) == tables_of(stmt@),
{
    let tokens = split_words(stmt);
    let ghost all = views(tokens@);
    let mut tables: Vec<String> = Vec::new();
    let mut k: usize = 0;
    proof {
        assert(views(tables@) =~= Seq::<Seq<char>>::empty());
    }
    while k < tokens.len()
        invariant
            k <= tokens@.len(),
            all == views(tokens@),
            views(tables@) == tables_after(all, k as int),
        decreases tokens@.len() - k,
    {
        let word = tokens[k].as_str();
        let introduces = same(word, "TABLE") || same(word, "INTO") || same(word, "FROM") || same(word, "UPDATE")
            || same(word, "ON");
        let ghost was = views(tables@);
        if introduces && k + 1 < tokens.len() {
            let name = to_lowercase(trim_edges(tokens[k + 1].as_str()).as_str());
            if table_name(name.as_str()) {
                tables.push(name);
                proof {
                    assert(views(tables@) =~= was.push(name@));
                }
            }
        }
        k = k + 1;
    }
    tables
}

/// A text with one blank between its words.
pub open spec fn single_spaced(s: Seq<char>) -> Seq<char> {
    joined(words(s), " "@)
}

/// A text with one blank between its words.
fn single_space(s: &str) -> (out: String)
    ensures
        out@ == single_spaced(s@),
{
    join(&split_words(s), " ")
}

/// Why a statement holds a long-lived table lock.
pub open spec fn lock_fault(stmt: Seq<char>) -> Option<Seq<char>> {
    let flat = single_spaced(stmt);
    if (occurs(flat, "CREATE INDEX"@) || occurs(flat, "CREATE UNIQUE INDEX"@)) && !occurs(flat, "CONCURRENTLY"@) {
        Some("blocking index build (missing CONCURRENTLY): "@ + stmt)
    } else if occurs(flat, "DROP COLUMN"@) {
        Some("DROP COLUMN takes an ACCESS EXCLUSIVE lock: "@ + stmt)
    } else if occurs(flat, "ALTER COLUMN"@) && occurs(flat, "TYPE"@) {
        Some("ALTER COLUMN TYPE rewrites the table: "@ + stmt)
    } else if occurs(flat, "ADD CONSTRAINT"@) && !occurs(flat, "NOT VALID"@) {
        Some("validated constraint blocks writes; use NOT VALID + VALIDATE: "@ + stmt)
    } else if occurs(flat, "CLUSTER"@) || occurs(flat, "VACUUM FULL"@) {
        Some("table-rewriting maintenance blocks access: "@ + stmt)
    } else {
        None
    }
}

/// The first lock fault among statements.
pub open spec fn first_lock_fault(stmts: Seq<Seq<char>>) -> Option<Seq<char>>
    decreases stmts.len(),
{
    if stmts.len() == 0 {
        None
    } else if lock_fault(stmts[0]) is Some {
        lock_fault(stmts[0])
    } else {
        first_lock_fault(stmts.drop_first())
    }
}

/// `lead` followed by `stmt`.
fn with_statement(lead: &str, stmt: &str) -> (out: String)
    ensures
        out@ == lead@ + stmt@,
{
    let mut out = lead.to_owned();
    out.append(stmt);
    out
}

/// Why a statement holds a long-lived table lock.
pub fn find_lock_fault(stmt: &str) -> (r: Option<String>)
    ensures
        match lock_fault(stmt@) {
            Some(d) => r matches Some(s) && s@ == d,
            None => r is None,
        },
{
    let spaced = single_space(stmt);
    let flat = spaced.as_str();
    if (contains(flat, "CREATE INDEX") || contains(flat, "CREATE UNIQUE INDEX")) && !contains(flat, "CONCURRENTLY") {
        Some(with_statement("blocking index build (missing CONCURRENTLY): ", stmt))
    } else if contains(flat, "DROP COLUMN") {
        Some(with_statement("DROP COLUMN takes an ACCESS EXCLUSIVE lock: ", stmt))
    } else if contains(flat, "ALTER COLUMN") && contains(flat, "TYPE") {
        Some(with_statement("ALTER COLUMN TYPE rewrites the table: ", stmt))
    } else if contains(flat, "ADD CONSTRAINT") && !contains(flat, "NOT VALID") {
        Some(with_statement("validated constraint blocks writes; use NOT VALID + VALIDATE: ", stmt))
    } else if contains(flat, "CLUSTER") || contains(flat, "VACUUM FULL") {
        Some(with_statement("table-rewriting maintenance blocks access: ", stmt))
    } else {
        None
    }
}

/// `r` is the result of `gate`: failed with `fault` where there is one, else passed.
pub open spec fn is_result(r: GateResult, gate: Gate, fault: Option<Seq<char>>, fine: Seq<char>) -> bool {
    &&& r.gate == gate
    &&& r.passed == (fault is None)
    &&& r.details@ == match fault {
        Some(d) => d,
        None => fine,
    }
}

/// Reject statements known to hold long-lived table locks.
pub fn check_lock_risk(migration: &MigrationFile) -> (r: GateResult)
    ensures
        is_result(
            r,
            Gate::LockRisk,
            first_lock_fault(statements_of(migration.up_sql@)),
            "no long-lock statements detected"@,
        ),
{
    let stmts = statements(migration.up_sql.as_str());
    let ghost all = views(stmts@);
    let mut i: usize = 0;
    proof {
        assert(all.skip(0) =~= all);
    }
    while i < stmts.len()
        invariant
            i <= stmts@.len(),
            all == views(stmts@),
            all == statements_of(migration.up_sql@),
            first_lock_fault(all) == first_lock_fault(all.skip(i as int)),
        decreases stmts@.len() - i,
    {
        proof {
            assert(all.skip(i as int)[0] == stmts@[i as int]@);
            assert(all.skip(i as int).drop_first() =~= all.skip(i as int + 1));
        }
        if let Some(details) = find_lock_fault(stmts[i].as_str()) {
            return GateResult::fail(Gate::LockRisk, details);
        }
        i = i + 1;
    }
    GateResult::pass(Gate::LockRisk, "no long-lock statements detected".to_owned())
}

/// The first column that a statement names.
pub open spec fn named_column(stmt: Seq<char>, columns: Seq<ProdColumn>) -> Option<ProdColumn>
    decreases columns.len(),
{
    if columns.len() == 0 {
        None
    } else if occurs(stmt, uppercase(columns[0].name@)) {
        Some(columns[0])
    } else {
        named_column(stmt, columns.drop_first())
    }
}

/// Why a statement breaks the production table `table` with these columns.
pub open spec fn table_fault(stmt: Seq<char>, table: Seq<char>, columns: Seq<ProdColumn>) -> Option<Seq<char>> {
    let flat = single_spaced(stmt);
    if occurs(flat, "DROP COLUMN"@) && named_column(flat, columns) is Some {
        Some(
            "dropping column "@ + named_column(flat, columns)->0.name@ + " still present in production table "@ + table,
        )
    } else if occurs(flat, "ADD COLUMN"@) && occurs(flat, "NOT NULL"@) && !occurs(flat, "DEFAULT"@) {
        Some("NOT NULL column without DEFAULT on existing table "@ + table + ": "@ + stmt)
    } else if occurs(flat, "ALTER COLUMN"@) && occurs(flat, "TYPE"@) {
        Some("column type change on production table "@ + table + ": "@ + stmt)
    } else {
        None
    }
}

/// Why a statement breaks one of `tables`, as far as production has it.
pub open spec fn tables_fault(
    stmt: Seq<char>,
    tables: Seq<Seq<char>>,
    prod: Map<Seq<char>, Vec<ProdColumn>>,
) -> Option<Seq<char>>
    decreases tables.len(),
{
    if tables.len() == 0 {
        None
    } else {
        let key = lowercase(tables[0]);
        if prod.contains_key(key) && table_fault(stmt, tables[0], prod[key]@) is Some {
            table_fault(stmt, tables[0], prod[key]@)
        } else {
            tables_fault(stmt, tables.drop_first(), prod)
        }
    }
}

/// Why a statement is incompatible with production.
pub open spec fn compat_fault(stmt: Seq<char>, prod: Map<Seq<char>, Vec<ProdColumn>>) -> Option<Seq<char>> {
    if tables_fault(stmt, tables_of(stmt), prod) is Some {
        tables_fault(stmt, tables_of(stmt), prod)
    } else if occurs(stmt, "CREATE"@) && occurs(stmt, "INDEX"@) && occurs(stmt, "WHERE"@) {
        Some("partial index changes query plans for existing readers: "@ + stmt)
    } else {
        None
    }
}

/// The first incompatibility among statements.
pub open spec fn first_compat_fault(stmts: Seq<Seq<char>>, prod: Map<Seq<char>, Vec<ProdColumn>>) -> Option<
    Seq<char>,
>
    decreases stmts.len(),
{
    if stmts.len() == 0 {
        None
    } else if compat_fault(stmts[0], prod) is Some {
        compat_fault(stmts[0], prod)
    } else {
        first_compat_fault(stmts.drop_first(), prod)
    }
}

/// The first column that a statement names.
pub fn find_named_column<'a>(stmt: &str, columns: &'a Vec<ProdColumn>) -> (r: Option<&'a ProdColumn>)
    ensures
        match named_column(stmt@, columns@) {
            Some(c) => r matches Some(x) && *x == c,
            None => r is None,
        },
{
    let mut i: usize = 0;
    proof {
        assert(columns@.skip(0) =~= columns@);
    }
    while i < columns.len()
        invariant
            i <= columns@.len(),
            named_column(stmt@, columns@) == named_column(stmt@, columns@.skip(i as int)),
        decreases columns@.len() - i,
    {
        proof {
            assert(columns@.skip(i as int)[0] == columns@[i as int]);
            assert(columns@.skip(i as int).drop_first() =~= columns@.skip(i as int + 1));
        }
        if contains(stmt, to_uppercase(columns[i].name.as_str()).as_str()) {
            return Some(&columns[i]);
        }
        i = i + 1;
    }
    None
}

/// Why a statement breaks the production table `table`.
pub fn find_table_fault(stmt: &str, table: &str, columns: &Vec<ProdColumn>) -> (r: Option<String>)
    ensures
        match table_fault(stmt@, table@, columns@) {
            Some(d) => r matches Some(s) && s@ == d,
            None => r is None,
        },
{
    let spaced = single_space(stmt);
    let flat = spaced.as_str();
    if contains(flat, "DROP COLUMN") {
        if let Some(col) = find_named_column(flat, columns) {
            let mut out = "dropping column ".to_owned();
            out.append(col.name.as_str());
            out.append(" still present in production table ");
            out.append(table);
            return Some(out);
        }
    }
    if contains(flat, "ADD COLUMN") && contains(flat, "NOT NULL") && !contains(flat, "DEFAULT") {
        let mut out = "NOT NULL column without DEFAULT on existing table ".to_owned();
        out.append(table);
        out.append(": ");
        out.append(stmt);
        return Some(out);
    }
    if contains(flat, "ALTER COLUMN") && contains(flat, "TYPE") {
        let mut out = "column type change on production table ".to_owned();
        out.append(table);
        out.append(": ");
        out.append(stmt);
        return Some(out);
    }
    None
}

/// Why a statement is incompatible with production.
pub fn find_compat_fault(stmt: &str, prod: &ProductionSchema) -> (r: Option<String>)
    ensures
        match compat_fault(stmt@, prod.tables@) {
            Some(d) => r matches Some(s) && s@ == d,
            None => r is None,
        },
{
    let tables = referenced_tables(stmt);
    let ghost all = views(tables@);
    let mut i: usize = 0;
    proof {
        assert(all.skip(0) =~= all);
    }
    while i < tables.len()
        invariant
            i <= tables@.len(),
            all == views(tables@),
            all == tables_of(stmt@),
            tables_fault(stmt@, all, prod.tables@) == tables_fault(stmt@, all.skip(i as int), prod.tables@),
        decreases tables@.len() - i,
    {
        proof {
            assert(all.skip(i as int)[0] == tables@[i as int]@);
            assert(all.skip(i as int).drop_first() =~= all.skip(i as int + 1));
        }
        let table = tables[i].as_str();
        if let Some(columns) = prod.tables.get(to_lowercase(table).as_str()) {
            if let Some(details) = find_table_fault(stmt, table, columns) {
                return Some(details);
            }
        }
        i = i + 1;
    }
    if contains(stmt, "CREATE") && contains(stmt, "INDEX") && contains(stmt, "WHERE") {
        Some(with_statement("partial index changes query plans for existing readers: ", stmt))
    } else {
        None
    }
}

/// Reject changes incompatible with the live production schema.
pub fn check_backward_compat(migration: &MigrationFile, prod: &ProductionSchema) -> (r: GateResult)
    ensures
        is_result(
            r,
            Gate::BackwardCompatibility,
            first_compat_fault(statements_of(migration.up_sql@), prod.tables@),
            "compatible with the production schema snapshot"@,
        ),
{
    let stmts = statements(migration.up_sql.as_str());
    let ghost all = views(stmts@);
    let mut i: usize = 0;
    proof {
        assert(all.skip(0) =~= all);
    }
    while i < stmts.len()
        invariant
            i <= stmts@.len(),
            all == views(stmts@),
            all == statements_of(migration.up_sql@),
            first_compat_fault(all, prod.tables@) == first_compat_fault(all.skip(i as int), prod.tables@),
        decreases stmts@.len() - i,
    {
        proof {
            assert(all.skip(i as int)[0] == stmts@[i as int]@);
            assert(all.skip(i as int).drop_first() =~= all.skip(i as int + 1));
        }
        if let Some(details) = find_compat_fault(stmts[i].as_str(), prod) {
            return GateResult::fail(Gate::BackwardCompatibility, details);
        }
        i = i + 1;
    }
    GateResult::pass(
        Gate::BackwardCompatibility,
        "compatible with the production schema snapshot".to_owned(),
    )
}

/// The tables that several statements name.
pub open spec fn all_tables(stmts: Seq<Seq<char>>) -> Seq<Seq<char>>
    decreases stmts.len(),
{
    if stmts.len() == 0 {
        Seq::empty()
    } else {
        all_tables(stmts.drop_last()) + tables_of(stmts.last())
    }
}

/// The rollback script names every table.
pub open spec fn names_all(down: Seq<char>, tables: Seq<Seq<char>>) -> bool {
    forall|i: int| 0 <= i < tables.len() ==> occurs(uppercase(down), uppercase(#[trigger] tables[i]))
}

/// The migration's number and name.
pub open spec fn title(m: MigrationFile) -> Seq<char> {
    four_digits(m.version as nat) + "_"@ + m.name@
}

/// What is wrong with the rollback of a migration.
pub open spec fn rollback_fault(m: MigrationFile) -> Option<Seq<char>> {
    let tables = all_tables(statements_of(m.up_sql@));
    if trimmed(m.down_sql@).len() == 0 || statements_of(m.down_sql@).len() == 0 {
        Some("migration "@ + title(m) + " has no rollback migration"@)
    } else if !names_all(code_of(m.down_sql@, Place::Code, false), tables) {
        Some("rollback does not cover forward tables "@ + list_debug(tables) + " for "@ + title(m))
    } else {
        None
    }
}

/// The migration's number and name.
fn title_of(m: &MigrationFile) -> (out: String)
    ensures
        out@ == title(*m),
{
    let mut out = decimal_four(m.version as u64);
    out.append("_");
    out.append(m.name.as_str());
    out
}

/// The tables that the statements of a script name.
fn forward_tables(sql: &str) -> (tables: Vec<String>)
    ensures
        views(tables@) == all_tables(statements_of(sql@)),
{
    let stmts = statements(sql);
    let ghost all = views(stmts@);
    let mut tables: Vec<String> = Vec::new();
    let mut i: usize = 0;
    proof {
        assert(views(tables@) =~= Seq::<Seq<char>>::empty());
        assert(all.take(0) =~= Seq::<Seq<char>>::empty());
    }
    while i < stmts.len()
        invariant
            i <= stmts@.len(),
            all == views(stmts@),
            views(tables@) == all_tables(all.take(i as int)),
        decreases stmts@.len() - i,
    {
        proof {
            assert(all.take(i as int + 1).drop_last() =~= all.take(i as int));
            assert(all.take(i as int + 1).last() == stmts@[i as int]@);
        }
        let mut more = referenced_tables(stmts[i].as_str());
        let ghost was = tables@;
        let ghost added = more@;
        tables.append(&mut more);
        proof {
            assert(views(tables@) =~= views(was) + views(added));
        }
        i = i + 1;
    }
    proof {
        assert(all.take(all.len() as int) =~= all);
    }
    tables
}

/// Require a real rollback script that undoes the forward migration.
pub fn check_rollback(migration: &MigrationFile) -> (r: GateResult)
    ensures
        is_result(
            r,
            Gate::Rollback,
            rollback_fault(*migration),
            "rollback migration exists and covers forward tables"@,
        ),
{
    if trim(migration.down_sql.as_str()).as_str().is_empty() || statements(migration.down_sql.as_str()).len() == 0 {
        let mut out = "migration ".to_owned();
        out.append(title_of(migration).as_str());
        out.append(" has no rollback migration");
        proof {
            assert(views(Seq::<String>::empty()).len() == 0);
        }
        return GateResult::fail(Gate::Rollback, out);
    }
    let tables = forward_tables(migration.up_sql.as_str());
    let script = without_comments(migration.down_sql.as_str());
    let down = to_uppercase(script.as_str());
    let mut i: usize = 0;
    while i < tables.len()
        invariant
            i <= tables@.len(),
            script@ == code_of(migration.down_sql@, Place::Code, false),
            down@ == uppercase(script@),
            views(tables@) == all_tables(statements_of(migration.up_sql@)),
            !(trimmed(migration.down_sql@).len() == 0 || statements_of(migration.down_sql@).len() == 0),
            forall|k: int|
                0 <= k < i ==> occurs(uppercase(script@), uppercase(#[trigger] views(tables@)[k])),
        decreases tables@.len() - i,
    {
        if !contains(down.as_str(), to_uppercase(tables[i].as_str()).as_str()) {
            proof {
                assert(!occurs(uppercase(script@), uppercase(views(tables@)[i as int])));
            }
            let mut out = "rollback does not cover forward tables ".to_owned();
            out.append(debug_list(&tables).as_str());
            out.append(" for ");
            out.append(title_of(migration).as_str());
            return GateResult::fail(Gate::Rollback, out);
        }
        i = i + 1;
    }
    GateResult::pass(Gate::Rollback, "rollback migration exists and covers forward tables".to_owned())
}

/// Pass/fail artifact for one migration across all gates.
#[derive(Debug, Clone)]
pub struct GateReport {
    /// Migration under review.
    pub version: u32,
    /// Migration name.
    pub name: String,
    /// One result per gate.
    pub results: Vec<GateResult>,
}

/// How many of the results failed.
pub open spec fn failed_count(results: Seq<GateResult>) -> nat
    decreases results.len(),
{
    if results.len() == 0 {
        0
    } else {
        failed_count(results.drop_last()) + (if results.last().passed {
            0nat
        } else {
            1nat
        })
    }
}

/// All results passed exactly where none failed.
pub proof fn passed_means_no_failures(results: Seq<GateResult>)
    ensures
        (forall|i: int| 0 <= i < results.len() ==> #[trigger] results[i].passed) <==> failed_count(results) == 0,
        failed_count(results) <= results.len(),
    decreases results.len(),
{
    if results.len() > 0 {
        passed_means_no_failures(results.drop_last());
        assert forall|i: int| 0 <= i < results.len() - 1 implies results.drop_last()[i] == results[i] by {}
        if failed_count(results) == 0 {
            assert forall|i: int| 0 <= i < results.len() implies #[trigger] results[i].passed by {
                if i < results.len() - 1 {
                    assert(results.drop_last()[i].passed);
                }
            }
        }
        if forall|i: int| 0 <= i < results.len() ==> #[trigger] results[i].passed {
            assert(results[results.len() - 1].passed);
            assert forall|i: int| 0 <= i < results.drop_last().len() implies #[trigger] results.drop_last()[i].passed by {
                assert(results[i].passed);
            }
        }
    }
}

/// Text as it stands in XML.
pub open spec fn xml_escaped(s: Seq<char>) -> Seq<char> {
    replaced(replaced(replaced(replaced(s, '&', "&amp;"@), '<', "&lt;"@), '>', "&gt;"@), '"', "&quot;"@)
}

/// The report entry of one result.
pub open spec fn case_xml(r: GateResult) -> Seq<char> {
    let body = if r.passed {
        "    <system-out>"@ + xml_escaped(r.details@) + "</system-out>\n"@
    } else {
        "    <failure message=\""@ + xml_escaped(r.details@) + "\">"@ + xml_escaped(r.details@) + "</failure>\n"@
    };
    "  <testcase classname=\"migration-safety\" name=\""@ + r.gate.label() + "\">\n"@ + body + "  </testcase>\n"@
}

/// The report entries of several results.
pub open spec fn cases_xml(results: Seq<GateResult>) -> Seq<char>
    decreases results.len(),
{
    if results.len() == 0 {
        Seq::empty()
    } else {
        cases_xml(results.drop_last()) + case_xml(results.last())
    }
}

/// The opening lines of a report.
pub open spec fn suite_xml(r: GateReport) -> Seq<char> {
    "<?xml version=\"1.0\" encoding=\"UTF-8\"?>\n<testsuite name=\"migration-"@ + four_digits(r.version as nat) + "-"@
        + xml_escaped(r.name@) + "\" tests=\""@ + dec(r.results@.len()) + "\" failures=\""@ + dec(
        failed_count(r.results@),
    ) + "\">\n"@
}

/// Minimal XML escaper for report text.
pub fn xml_escape(text: &str) -> (out: String)
    ensures
        out@ == xml_escaped(text@),
{
    let a = replace(text, '&', "&amp;");
    let b = replace(a.as_str(), '<', "&lt;");
    let c = replace(b.as_str(), '>', "&gt;");
    replace(c.as_str(), '"', "&quot;")
}

/// The report entry of one result.
fn render_case(r: &GateResult) -> (xml: String)
    ensures
        xml@ == case_xml(*r),
{
    let details = xml_escape(r.details.as_str());
    let body = if r.passed {
        let mut body = "    <system-out>".to_owned();
        body.append(details.as_str());
        body.append("</system-out>\n");
        body
    } else {
        let mut body = "    <failure message=\"".to_owned();
        body.append(details.as_str());
        body.append("\">");
        body.append(details.as_str());
        body.append("</failure>\n");
        body
    };
    let mut xml = "  <testcase classname=\"migration-safety\" name=\"".to_owned();
    xml.append(r.gate.name());
    xml.append("\">\n");
    xml.append(body.as_str());
    xml.append("  </testcase>\n");
    xml
}

impl GateReport {
    /// Whether every gate passed.
    pub fn passed(&self) -> (r: bool)
        ensures
            r == (forall|i: int| 0 <= i < self.results@.len() ==> #[trigger] self.results@[i].passed),
            r == (failed_count(self.results@) == 0),
    {
        proof {
            passed_means_no_failures(self.results@);
        }
        let mut i: usize = 0;
        while i < self.results.len()
            invariant
                i <= self.results@.len(),
                forall|k: int| 0 <= k < i ==> #[trigger] self.results@[k].passed,
                (forall|i: int| 0 <= i < self.results@.len() ==> #[trigger] self.results@[i].passed) <==> failed_count(
                    self.results@,
                ) == 0,
            decreases self.results@.len() - i,
        {
            if !self.results[i].passed {
                return false;
            }
            i = i + 1;
        }
        true
    }

    /// Number of failing gates.
    pub fn failures(&self) -> (n: usize)
        ensures
            n == failed_count(self.results@),
    {
        let mut n: usize = 0;
        let mut i: usize = 0;
        while i < self.results.len()
            invariant
                i <= self.results@.len(),
                n <= i,
                n == failed_count(self.results@.take(i as int)),
            decreases self.results@.len() - i,
        {
            proof {
                assert(self.results@.take(i as int + 1).drop_last() =~= self.results@.take(i as int));
            }
            if !self.results[i].passed {
                n = n + 1;
            }
            i = i + 1;
        }
        proof {
            assert(self.results@.take(self.results@.len() as int) =~= self.results@);
        }
        n
    }

    /// Render a JUnit-style XML report for existing PR checks.
    pub fn to_junit_xml(&self) -> (xml: String)
        ensures
            xml@ == suite_xml(*self) + cases_xml(self.results@) + "</testsuite>\n"@,
    {
        let mut xml = "<?xml version=\"1.0\" encoding=\"UTF-8\"?>\n<testsuite name=\"migration-".to_owned();
        xml.append(decimal_four(self.version as u64).as_str());
        xml.append("-");
        xml.append(xml_escape(self.name.as_str()).as_str());
        xml.append("\" tests=\"");
        xml.append(decimal(self.results.len() as u64).as_str());
        xml.append("\" failures=\"");
        xml.append(decimal(self.failures() as u64).as_str());
        xml.append("\">\n");
        let ghost head = suite_xml(*self);
        let mut i: usize = 0;
        proof {
            assert(head + cases_xml(self.results@.take(0)) =~= head);
        }
        while i < self.results.len()
            invariant
                i <= self.results@.len(),
                xml@ == head + cases_xml(self.results@.take(i as int)),
            decreases self.results@.len() - i,
        {
            let r = &self.results[i];
            proof {
                assert(self.results@.take(i as int + 1).drop_last() =~= self.results@.take(i as int));
            }
            xml.append(render_case(r).as_str());
            proof {
                assert(xml@ =~= head + cases_xml(self.results@.take(i as int + 1)));
            }
            i = i + 1;
        }
        proof {
            assert(self.results@.take(self.results@.len() as int) =~= self.results@);
        }
        xml.append("</testsuite>\n");
        xml
    }
}

/// `report` is that of all three gates on the migration.
pub open spec fn is_report(report: GateReport, migration: MigrationFile, prod: ProductionSchema) -> bool {
    &&& report.version == migration.version
    &&& report.name@ == migration.name@
    &&& report.results@.len() == 3
    &&& is_result(
        report.results@[0],
        Gate::LockRisk,
        first_lock_fault(statements_of(migration.up_sql@)),
        "no long-lock statements detected"@,
    )
    &&& is_result(
        report.results@[1],
        Gate::BackwardCompatibility,
        first_compat_fault(statements_of(migration.up_sql@), prod.tables@),
        "compatible with the production schema snapshot"@,
    )
    &&& is_result(
        report.results@[2],
        Gate::Rollback,
        rollback_fault(migration),
        "rollback migration exists and covers forward tables"@,
    )
}

/// Run all three gates for `migration` against `prod`.
pub fn run_gates(migration: &MigrationFile, prod: &ProductionSchema) -> (report: GateReport)
    ensures
        is_report(report, *migration, *prod),
{
    let mut results: Vec<GateResult> = Vec::new();
    results.push(check_lock_risk(migration));
    results.push(check_backward_compat(migration, prod));
    results.push(check_rollback(migration));
    GateReport { version: migration.version, name: migration.name.clone(), results }
}

/// No gate fails exactly where no statement locks a table for long, none breaks the production
/// schema, and the rollback exists and names every table that the migration does.
pub proof fn passing_migrations_are_safe(report: GateReport, migration: MigrationFile, prod: ProductionSchema)
    requires
        is_report(report, migration, prod),
    ensures
        failed_count(report.results@) == 0 <==> {
            let statements = statements_of(migration.up_sql@);
            &&& forall|i: int| 0 <= i < statements.len() ==> lock_fault(#[trigger] statements[i]) is None
            &&& forall|i: int|
                0 <= i < statements.len() ==> compat_fault(#[trigger] statements[i], prod.tables@) is None
            &&& trimmed(migration.down_sql@).len() > 0
            &&& statements_of(migration.down_sql@).len() > 0
            &&& names_all(code_of(migration.down_sql@, Place::Code, false), all_tables(statements))
        },
{
    let statements = statements_of(migration.up_sql@);
    passed_means_no_failures(report.results@);
    faultless_scripts(statements, prod.tables@);
    assert(failed_count(report.results@) == 0 <==> report.results@[0].passed && report.results@[1].passed
        && report.results@[2].passed);
}

/// A script has a fault exactly where one of its statements has.
proof fn faultless_scripts(statements: Seq<Seq<char>>, tables: Map<Seq<char>, Vec<ProdColumn>>)
    ensures
        first_lock_fault(statements) is None <==> forall|i: int|
            0 <= i < statements.len() ==> lock_fault(#[trigger] statements[i]) is None,
        first_compat_fault(statements, tables) is None <==> forall|i: int|
            0 <= i < statements.len() ==> compat_fault(#[trigger] statements[i], tables) is None,
    decreases statements.len(),
{
    if statements.len() > 0 {
        let rest = statements.drop_first();
        faultless_scripts(rest, tables);
        assert forall|i: int| 0 <= i < rest.len() implies #[trigger] rest[i] == statements[i + 1] by {}
        assert forall|i: int| 0 < i < statements.len() implies #[trigger] statements[i] == rest[i - 1] by {}
    }
}

/// A script has a lock fault where one of its statements has, and it is that of the first.
proof fn lock_faults_are_found(stmts: Seq<Seq<char>>, i: int)
    requires
        0 <= i < stmts.len(),
        lock_fault(stmts[i]) is Some,
    ensures
        first_lock_fault(stmts) is Some,
        (forall|j: int| 0 <= j < i ==> lock_fault(#[trigger] stmts[j]) is None) ==> first_lock_fault(stmts)
            == lock_fault(stmts[i]),
    decreases stmts.len(),
{
    if i > 0 {
        let rest = stmts.drop_first();
        lock_faults_are_found(rest, i - 1);
        if forall|j: int| 0 <= j < i ==> lock_fault(#[trigger] stmts[j]) is None {
            assert(lock_fault(stmts[0]) is None);
            assert forall|j: int| 0 <= j < i - 1 implies lock_fault(#[trigger] rest[j]) is None by {
                assert(rest[j] == stmts[j + 1]);
            }
        }
    }
}

/// However its words are spaced, a statement that builds an index without `CONCURRENTLY`, drops
/// a column, changes a column's type, adds a constraint without `NOT VALID`, clusters a table or
/// vacuums it fully is refused for its lock.
pub proof fn long_locks_are_refused(report: GateReport, migration: MigrationFile, prod: ProductionSchema, i: int)
    requires
        is_report(report, migration, prod),
        0 <= i < statements_of(migration.up_sql@).len(),
    ensures
        ({
            let text = joined(words(statements_of(migration.up_sql@)[i]), " "@);
            &&& occurs(text, "CREATE INDEX"@) && !occurs(text, "CONCURRENTLY"@) ==> !report.results@[0].passed
            &&& occurs(text, "CREATE UNIQUE INDEX"@) && !occurs(text, "CONCURRENTLY"@) ==> !report.results@[0].passed
            &&& occurs(text, "DROP COLUMN"@) ==> !report.results@[0].passed
            &&& occurs(text, "ALTER COLUMN"@) && occurs(text, "TYPE"@) ==> !report.results@[0].passed
            &&& occurs(text, "ADD CONSTRAINT"@) && !occurs(text, "NOT VALID"@) ==> !report.results@[0].passed
            &&& occurs(text, "CLUSTER"@) ==> !report.results@[0].passed
            &&& occurs(text, "VACUUM FULL"@) ==> !report.results@[0].passed
        }),
        report.results@[0].gate is LockRisk,
{
    let stmts = statements_of(migration.up_sql@);
    if lock_fault(stmts[i]) is Some {
        lock_faults_are_found(stmts, i);
    }
}

/// A script whose statements hold none of the phrases that stand for long locks, or hold them
/// only in their safe forms, is not refused for its locks: an index may be built concurrently,
/// and a constraint may be added as not valid.
pub proof fn short_locks_pass(report: GateReport, migration: MigrationFile, prod: ProductionSchema)
    requires
        is_report(report, migration, prod),
        forall|i: int|
            0 <= i < statements_of(migration.up_sql@).len() ==> {
                let text = joined(words(#[trigger] statements_of(migration.up_sql@)[i]), " "@);
                &&& occurs(text, "CREATE INDEX"@) || occurs(text, "CREATE UNIQUE INDEX"@) ==> occurs(
                    text,
                    "CONCURRENTLY"@,
                )
                &&& !occurs(text, "DROP COLUMN"@)
                &&& !(occurs(text, "ALTER COLUMN"@) && occurs(text, "TYPE"@))
                &&& occurs(text, "ADD CONSTRAINT"@) ==> occurs(text, "NOT VALID"@)
                &&& !occurs(text, "CLUSTER"@)
                &&& !occurs(text, "VACUUM FULL"@)
            },
    ensures
        report.results@[0].passed,
        report.results@[0].details@ == "no long-lock statements detected"@,
{
    let stmts = statements_of(migration.up_sql@);
    faultless_scripts(stmts, prod.tables@);
    assert forall|i: int| 0 <= i < stmts.len() implies lock_fault(#[trigger] stmts[i]) is None by {
        assert(single_spaced(stmts[i]) == joined(words(stmts[i]), " "@));
    }
}

/// The report of a lock names the first statement that takes it, as it stands, and why it is
/// refused.
pub proof fn lock_reports_quote_the_statement(
    report: GateReport,
    migration: MigrationFile,
    prod: ProductionSchema,
    i: int,
)
    requires
        is_report(report, migration, prod),
        0 <= i < statements_of(migration.up_sql@).len(),
        lock_fault(statements_of(migration.up_sql@)[i]) is Some,
        forall|j: int| 0 <= j < i ==> lock_fault(#[trigger] statements_of(migration.up_sql@)[j]) is None,
    ensures
        ({
            let stmt = statements_of(migration.up_sql@)[i];
            let text = joined(words(stmt), " "@);
            let details = report.results@[0].details@;
            let blocking = (occurs(text, "CREATE INDEX"@) || occurs(text, "CREATE UNIQUE INDEX"@)) && !occurs(
                text,
                "CONCURRENTLY"@,
            );
            &&& blocking ==> details == "blocking index build (missing CONCURRENTLY): "@ + stmt
            &&& !blocking && occurs(text, "DROP COLUMN"@) ==> details
                == "DROP COLUMN takes an ACCESS EXCLUSIVE lock: "@ + stmt
            &&& !blocking && !occurs(text, "DROP COLUMN"@) && !occurs(text, "ALTER COLUMN"@) && occurs(
                text,
                "ADD CONSTRAINT"@,
            ) && !occurs(text, "NOT VALID"@) ==> details
                == "validated constraint blocks writes; use NOT VALID + VALIDATE: "@ + stmt
            &&& exists|lead: Seq<char>| details == #[trigger] (lead + stmt)
        }),
{
    let stmts = statements_of(migration.up_sql@);
    lock_faults_are_found(stmts, i);
    let stmt = stmts[i];
    assert(lock_fault(stmt)->0 == report.results@[0].details@);
    let details = report.results@[0].details@;
    assert(details =~= details.take(details.len() - stmt.len()) + stmt);
}

proof fn compat_faults_are_found(stmts: Seq<Seq<char>>, prod: Map<Seq<char>, Vec<ProdColumn>>, i: int)
    requires
        0 <= i < stmts.len(),
        compat_fault(stmts[i], prod) is Some,
    ensures
        first_compat_fault(stmts, prod) is Some,
    decreases stmts.len(),
{
    if i > 0 {
        compat_faults_are_found(stmts.drop_first(), prod, i - 1);
    }
}

proof fn table_faults_are_found(
    stmt: Seq<char>,
    tables: Seq<Seq<char>>,
    prod: Map<Seq<char>, Vec<ProdColumn>>,
    k: int,
)
    requires
        0 <= k < tables.len(),
        prod.contains_key(lowercase(tables[k])),
        table_fault(stmt, tables[k], prod[lowercase(tables[k])]@) is Some,
    ensures
        tables_fault(stmt, tables, prod) is Some,
    decreases tables.len(),
{
    if k > 0 {
        table_faults_are_found(stmt, tables.drop_first(), prod, k - 1);
    }
}

proof fn named_columns_are_found(stmt: Seq<char>, columns: Seq<ProdColumn>)
    ensures
        named_column(stmt, columns) is Some <==> exists|c: int|
            0 <= c < columns.len() && occurs(stmt, uppercase(#[trigger] columns[c].name@)),
    decreases columns.len(),
{
    if columns.len() > 0 {
        let rest = columns.drop_first();
        named_columns_are_found(stmt, rest);
        if exists|c: int| 0 <= c < columns.len() && occurs(stmt, uppercase(#[trigger] columns[c].name@)) {
            let c = choose|c: int| 0 <= c < columns.len() && occurs(stmt, uppercase(#[trigger] columns[c].name@));
            if c > 0 {
                assert(occurs(stmt, uppercase(rest[c - 1].name@)));
            }
        }
        if exists|c: int| 0 <= c < rest.len() && occurs(stmt, uppercase(#[trigger] rest[c].name@)) {
            let c = choose|c: int| 0 <= c < rest.len() && occurs(stmt, uppercase(#[trigger] rest[c].name@));
            assert(occurs(stmt, uppercase(columns[c + 1].name@)));
        }
        assert(occurs(stmt, uppercase(columns[0].name@)) ==> exists|c: int|
            0 <= c < columns.len() && occurs(stmt, uppercase(#[trigger] columns[c].name@)));
    }
}

/// A statement that names a table of production is refused where it drops one of the table's
/// columns, adds one that must not be null without a default, or changes the type of one; and
/// one that builds a partial index is refused whatever it names.
pub proof fn breaking_changes_are_refused(
    report: GateReport,
    migration: MigrationFile,
    prod: ProductionSchema,
    i: int,
    k: int,
)
    requires
        is_report(report, migration, prod),
        0 <= i < statements_of(migration.up_sql@).len(),
    ensures
        ({
            let stmt = statements_of(migration.up_sql@)[i];
            let text = joined(words(stmt), " "@);
            &&& occurs(stmt, "CREATE"@) && occurs(stmt, "INDEX"@) && occurs(stmt, "WHERE"@)
                ==> !report.results@[1].passed
            &&& 0 <= k < tables_of(stmt).len() && prod.tables@.contains_key(lowercase(tables_of(stmt)[k])) ==> {
                &&& occurs(text, "DROP COLUMN"@) && (exists|c: int|
                    0 <= c < prod.tables@[lowercase(tables_of(stmt)[k])]@.len() && occurs(
                        text,
                        uppercase(#[trigger] prod.tables@[lowercase(tables_of(stmt)[k])]@[c].name@),
                    )) ==> !report.results@[1].passed
                &&& occurs(text, "ADD COLUMN"@) && occurs(text, "NOT NULL"@) && !occurs(text, "DEFAULT"@)
                    ==> !report.results@[1].passed
                &&& occurs(text, "ALTER COLUMN"@) && occurs(text, "TYPE"@) ==> !report.results@[1].passed
            }
        }),
        report.results@[1].gate is BackwardCompatibility,
{
    let stmts = statements_of(migration.up_sql@);
    let stmt = stmts[i];
    let text = joined(words(stmt), " "@);
    if 0 <= k < tables_of(stmt).len() && prod.tables@.contains_key(lowercase(tables_of(stmt)[k])) {
        named_columns_are_found(text, prod.tables@[lowercase(tables_of(stmt)[k])]@);
        if table_fault(stmt, tables_of(stmt)[k], prod.tables@[lowercase(tables_of(stmt)[k])]@) is Some {
            table_faults_are_found(stmt, tables_of(stmt), prod.tables@, k);
        }
    }
    if compat_fault(stmt, prod.tables@) is Some {
        compat_faults_are_found(stmts, prod.tables@, i);
    }
}

proof fn untouched_tables(stmt: Seq<char>, tables: Seq<Seq<char>>, prod: Map<Seq<char>, Vec<ProdColumn>>)
    requires
        forall|k: int|
            0 <= k < tables.len() && prod.contains_key(lowercase(#[trigger] tables[k])) ==> table_fault(
                stmt,
                tables[k],
                prod[lowercase(tables[k])]@,
            ) is None,
    ensures
        tables_fault(stmt, tables, prod) is None,
    decreases tables.len(),
{
    if tables.len() > 0 {
        let rest = tables.drop_first();
        assert forall|k: int| 0 <= k < rest.len() && prod.contains_key(lowercase(#[trigger] rest[k])) implies table_fault(
            stmt,
            rest[k],
            prod[lowercase(rest[k])]@,
        ) is None by {
            assert(rest[k] == tables[k + 1]);
        }
        untouched_tables(stmt, rest, prod);
        assert(tables[0] == tables.first());
    }
}

/// A script that names no table of production and builds no partial index is compatible with
/// production, and so is one that drops no column, changes no type and gives every new column a
/// default.
pub proof fn additive_changes_pass(report: GateReport, migration: MigrationFile, prod: ProductionSchema)
    requires
        is_report(report, migration, prod),
        forall|i: int|
            0 <= i < statements_of(migration.up_sql@).len() ==> {
                let stmt = #[trigger] statements_of(migration.up_sql@)[i];
                let text = joined(words(stmt), " "@);
                &&& !(occurs(stmt, "CREATE"@) && occurs(stmt, "INDEX"@) && occurs(stmt, "WHERE"@))
                &&& {
                    ||| forall|k: int|
                        0 <= k < tables_of(stmt).len() ==> !prod.tables@.contains_key(
                            lowercase(#[trigger] tables_of(stmt)[k]),
                        )
                    ||| {
                        &&& !occurs(text, "DROP COLUMN"@)
                        &&& !(occurs(text, "ADD COLUMN"@) && occurs(text, "NOT NULL"@) && !occurs(text, "DEFAULT"@))
                        &&& !(occurs(text, "ALTER COLUMN"@) && occurs(text, "TYPE"@))
                    }
                }
            },
    ensures
        report.results@[1].passed,
        report.results@[1].details@ == "compatible with the production schema snapshot"@,
{
    let stmts = statements_of(migration.up_sql@);
    faultless_scripts(stmts, prod.tables@);
    assert forall|i: int| 0 <= i < stmts.len() implies compat_fault(#[trigger] stmts[i], prod.tables@) is None by {
        untouched_tables(stmts[i], tables_of(stmts[i]), prod.tables@);
    }
}

proof fn tables_follow_their_words(tokens: Seq<Seq<char>>, k: int, j: int)
    requires
        0 <= j < k <= tokens.len(),
        j + 1 < tokens.len(),
        introduces_table(tokens[j]),
        is_table_name(token_name(tokens[j + 1])),
    ensures
        tables_after(tokens, k).contains(token_name(tokens[j + 1])),
    decreases k,
{
    let rest = tables_after(tokens, k - 1);
    let name = token_name(tokens[j + 1]);
    if j < k - 1 {
        tables_follow_their_words(tokens, k - 1, j);
        let at = rest.index_of(name);
        assert(tables_after(tokens, k)[at] == name);
    } else {
        assert(tables_after(tokens, k)[rest.len() as int] == name);
    }
}

proof fn tables_have_their_words(tokens: Seq<Seq<char>>, k: int, t: Seq<char>)
    requires
        0 <= k <= tokens.len(),
        tables_after(tokens, k).contains(t),
    ensures
        exists|j: int|
            0 <= j < tokens.len() - 1 && introduces_table(#[trigger] tokens[j]) && is_table_name(t) && t == token_name(
                tokens[j + 1],
            ),
    decreases k,
{
    if k > 0 {
        let rest = tables_after(tokens, k - 1);
        let at = tables_after(tokens, k).index_of(t);
        if at < rest.len() {
            assert(rest[at] == t);
            tables_have_their_words(tokens, k - 1, t);
        } else {
            assert(introduces_table(tokens[k - 1]));
        }
    }
}

/// The tables that a statement names stand right behind `TABLE`, `INTO`, `FROM`, `UPDATE` or
/// `ON`: each word behind one of these that can be a table's name is one, and there are no others.
pub proof fn tables_stand_behind_keywords(stmt: Seq<char>, t: Seq<char>)
    ensures
        tables_of(stmt).contains(t) <==> exists|j: int|
            0 <= j < words(stmt).len() - 1 && {
                let word = #[trigger] words(stmt)[j];
                &&& word == "TABLE"@ || word == "INTO"@ || word == "FROM"@ || word == "UPDATE"@ || word == "ON"@
                &&& t == token_name(words(stmt)[j + 1])
                &&& t.len() > 0 && t != "if"@ && t != "concurrently"@
                &&& forall|i: int| 0 <= i < t.len() ==> t[i] != '.' && (is_alphanumeric(#[trigger] t[i]) || t[i] == '_')
            },
{
    let tokens = words(stmt);
    if tables_of(stmt).contains(t) {
        tables_have_their_words(tokens, tokens.len() as int, t);
        let j = choose|j: int|
            0 <= j < tokens.len() - 1 && introduces_table(#[trigger] tokens[j]) && is_table_name(t) && t == token_name(
                tokens[j + 1],
            );
        assert(tokens[j] == words(stmt)[j]);
        assert forall|i: int| 0 <= i < t.len() implies t[i] != '.' && (is_alphanumeric(#[trigger] t[i]) || t[i] == '_') by {
            assert(t.contains(t[i]));
        }
    }
    if exists|j: int|
        0 <= j < words(stmt).len() - 1 && {
            let word = #[trigger] words(stmt)[j];
            &&& word == "TABLE"@ || word == "INTO"@ || word == "FROM"@ || word == "UPDATE"@ || word == "ON"@
            &&& t == token_name(words(stmt)[j + 1])
            &&& t.len() > 0 && t != "if"@ && t != "concurrently"@
            &&& forall|i: int| 0 <= i < t.len() ==> t[i] != '.' && (is_alphanumeric(#[trigger] t[i]) || t[i] == '_')
        } {
        let j = choose|j: int|
            0 <= j < words(stmt).len() - 1 && {
                let word = #[trigger] words(stmt)[j];
                &&& word == "TABLE"@ || word == "INTO"@ || word == "FROM"@ || word == "UPDATE"@ || word == "ON"@
                &&& t == token_name(words(stmt)[j + 1])
                &&& t.len() > 0 && t != "if"@ && t != "concurrently"@
                &&& forall|i: int| 0 <= i < t.len() ==> t[i] != '.' && (is_alphanumeric(#[trigger] t[i]) || t[i] == '_')
            };
        assert(is_table_name(t));
        tables_follow_their_words(tokens, tokens.len() as int, j);
    }
}

proof fn all_tables_hold(stmts: Seq<Seq<char>>, i: int, t: Seq<char>)
    requires
        0 <= i < stmts.len(),
        tables_of(stmts[i]).contains(t),
    ensures
        all_tables(stmts).contains(t),
    decreases stmts.len(),
{
    let front = all_tables(stmts.drop_last());
    if i < stmts.len() - 1 {
        all_tables_hold(stmts.drop_last(), i, t);
        let at = front.index_of(t);
        assert(all_tables(stmts)[at] == t);
    } else {
        let at = tables_of(stmts.last()).index_of(t);
        assert(all_tables(stmts)[front.len() + at] == t);
    }
}

/// A migration is refused without a rollback script of at least one statement, and where the
/// code of that script leaves out a table that some statement of the migration names.
pub proof fn rollbacks_cover_every_table(
    report: GateReport,
    migration: MigrationFile,
    prod: ProductionSchema,
    i: int,
    t: Seq<char>,
)
    requires
        is_report(report, migration, prod),
    ensures
        report.results@[2].gate is Rollback,
        statements_of(migration.down_sql@).len() == 0 ==> !report.results@[2].passed,
        (forall|j: int| 0 <= j < migration.down_sql@.len() ==> crate::text::is_white(#[trigger] migration.down_sql@[j]))
            ==> !report.results@[2].passed,
        0 <= i < statements_of(migration.up_sql@).len() && tables_of(statements_of(migration.up_sql@)[i]).contains(t)
            && !occurs(uppercase(code_of(migration.down_sql@, Place::Code, false)), uppercase(t))
            ==> !report.results@[2].passed,
        statements_of(migration.down_sql@).len() > 0 && trimmed(migration.down_sql@).len() > 0 && all_tables(
            statements_of(migration.up_sql@),
        ).len() == 0 ==> report.results@[2].passed,
{
    crate::text::trimming_takes_white_space(migration.down_sql@);
    let stmts = statements_of(migration.up_sql@);
    if 0 <= i < stmts.len() && tables_of(stmts[i]).contains(t) {
        all_tables_hold(stmts, i, t);
        let at = all_tables(stmts).index_of(t);
        assert(all_tables(stmts)[at] == t);
    }
}

/// A comment that starts with two dashes is dropped up to the end of its line.
pub proof fn line_comments_are_dropped(comment: Seq<char>, rest: Seq<char>, body: bool)
    requires
        !comment.contains('\n'),
    ensures
        code_of(seq!['-', '-'] + comment + seq!['\n'] + rest, Place::Code, body) == seq!['\n'] + code_of(
            rest,
            Place::Code,
            body,
        ),
{
    let s = seq!['-', '-'] + comment + seq!['\n'] + rest;
    assert(s.skip(2) =~= comment + seq!['\n'] + rest);
    in_a_line_comment(comment, rest, body);
}

proof fn in_a_line_comment(comment: Seq<char>, rest: Seq<char>, body: bool)
    requires
        !comment.contains('\n'),
    ensures
        code_of(comment + seq!['\n'] + rest, Place::Line, body) == seq!['\n'] + code_of(rest, Place::Code, body),
    decreases comment.len(),
{
    let s = comment + seq!['\n'] + rest;
    if comment.len() > 0 {
        let more = comment.skip(1);
        assert forall|i: int| 0 <= i < more.len() implies more[i] != '\n' by {
            assert(more[i] == comment[i + 1]);
        }
        in_a_line_comment(more, rest, body);
        assert(s.skip(1) =~= more + seq!['\n'] + rest);
        assert(s[0] == comment[0]);
        assert(comment.contains(comment[0]));
    } else {
        assert(s.skip(1) =~= rest);
        assert(s[0] == '\n');
    }
}

/// A comment between its marks is dropped and leaves a blank.
pub proof fn block_comments_are_dropped(comment: Seq<char>, rest: Seq<char>, body: bool)
    requires
        !comment.contains('*'),
    ensures
        code_of(seq!['/', '*'] + comment + seq!['*', '/'] + rest, Place::Code, body) == seq![' '] + code_of(
            rest,
            Place::Code,
            body,
        ),
{
    let s = seq!['/', '*'] + comment + seq!['*', '/'] + rest;
    assert(s.skip(2) =~= comment + seq!['*', '/'] + rest);
    in_a_block_comment(comment, rest, body);
}

proof fn in_a_block_comment(comment: Seq<char>, rest: Seq<char>, body: bool)
    requires
        !comment.contains('*'),
    ensures
        code_of(comment + seq!['*', '/'] + rest, Place::Block, body) == code_of(rest, Place::Code, body),
    decreases comment.len(),
{
    let s = comment + seq!['*', '/'] + rest;
    if comment.len() > 0 {
        let more = comment.skip(1);
        assert forall|i: int| 0 <= i < more.len() implies more[i] != '*' by {
            assert(more[i] == comment[i + 1]);
        }
        in_a_block_comment(more, rest, body);
        assert(s.skip(1) =~= more + seq!['*', '/'] + rest);
        assert(s[0] == comment[0]);
        assert(comment.contains(comment[0]));
    } else {
        assert(s.skip(2) =~= rest);
        assert(s[0] == '*' && s[1] == '/');
    }
}

/// A string is kept as it stands, whatever it holds: marks of comments and semicolons in it mean
/// nothing.
pub proof fn strings_are_kept(text: Seq<char>, rest: Seq<char>, body: bool)
    requires
        !text.contains('\''),
    ensures
        code_of(seq!['\''] + text + seq!['\''] + rest, Place::Code, body) == seq!['\''] + text + seq!['\''] + code_of(
            rest,
            Place::Code,
            body,
        ),
{
    let s = seq!['\''] + text + seq!['\''] + rest;
    assert(s.skip(1) =~= text + seq!['\''] + rest);
    assert(s[0] == '\'');
    in_a_string(text, rest, body);
    assert(code_of(s, Place::Code, body) =~= seq!['\''] + (text + seq!['\''] + code_of(rest, Place::Code, body)));
    assert(seq!['\''] + (text + seq!['\''] + code_of(rest, Place::Code, body)) =~= seq!['\''] + text + seq!['\''] + code_of(
        rest,
        Place::Code,
        body,
    ));
}

proof fn in_a_string(text: Seq<char>, rest: Seq<char>, body: bool)
    requires
        !text.contains('\''),
    ensures
        code_of(text + seq!['\''] + rest, Place::Single, body) == text + seq!['\''] + code_of(rest, Place::Code, body),
    decreases text.len(),
{
    let s = text + seq!['\''] + rest;
    if text.len() > 0 {
        let more = text.skip(1);
        assert forall|i: int| 0 <= i < more.len() implies more[i] != '\'' by {
            assert(more[i] == text[i + 1]);
        }
        in_a_string(more, rest, body);
        assert(s.skip(1) =~= more + seq!['\''] + rest);
        assert(s[0] == text[0]);
        assert(text.contains(text[0]));
        assert(seq![s[0]] + (more + seq!['\''] + code_of(rest, Place::Code, body)) =~= text + seq!['\''] + code_of(
            rest,
            Place::Code,
            body,
        ));
    } else {
        assert(s.skip(1) =~= rest);
        assert(s[0] == '\'');
        assert(seq!['\''] + code_of(rest, Place::Code, body) =~= text + seq!['\''] + code_of(rest, Place::Code, body));
    }
}

/// A semicolon in the code ends its line.
pub proof fn semicolons_end_their_line(rest: Seq<char>)
    ensures
        code_of(seq![';'] + rest, Place::Code, false) == seq![';', '\n'] + code_of(rest, Place::Code, false),
{
    let s = seq![';'] + rest;
    assert(s.skip(1) =~= rest);
    assert(s[0] == ';');
}

/// A line that ends in a semicolon ends its statement, which then stands on its own: what comes
/// behind it does not join it. A line that does not end in one is joined by the next.
pub proof fn semicolons_end_statements(lines: Seq<Seq<char>>, line: Seq<char>)
    requires
        trimmed(line).len() > 0,
    ensures
        trimmed(line).last() == ';' ==> {
            let p = read_lines(lines.push(line));
            let text = trimmed(strip_end(trimmed((read_lines(lines).current + trimmed(line)).push(' ')), ';'));
            &&& p.current.len() == 0
            &&& text.len() > 0 ==> p.done == read_lines(lines).done.push(uppercase(text))
            &&& text.len() == 0 ==> p.done == read_lines(lines).done
        },
        trimmed(line).last() != ';' ==> {
            let p = read_lines(lines.push(line));
            &&& p.done == read_lines(lines).done
            &&& p.current == (read_lines(lines).current + trimmed(line)).push(' ')
        },
{
    assert(lines.push(line).drop_last() =~= lines);
    assert(lines.push(line).last() == line);
}

/// No character that XML reserves is left in a text that stands in it.
pub proof fn reserved_characters_are_escaped(s: Seq<char>)
    ensures
        !xml_escaped(s).contains('<'),
        !xml_escaped(s).contains('>'),
        !xml_escaped(s).contains('"'),
        !s.contains('&') && !s.contains('<') && !s.contains('>') && !s.contains('"') ==> xml_escaped(s) == s,
{
    reveal_strlit("&amp;");
    reveal_strlit("&lt;");
    reveal_strlit("&gt;");
    reveal_strlit("&quot;");
    let a = replaced(s, '&', "&amp;"@);
    let b = replaced(a, '<', "&lt;"@);
    let c = replaced(b, '>', "&gt;"@);
    let d = replaced(c, '"', "&quot;"@);
    replacing_leaves_none(a, '<', "&lt;"@, '<');
    replacing_leaves_none(b, '>', "&gt;"@, '>');
    replacing_adds_none(b, '>', "&gt;"@, '<');
    replacing_leaves_none(c, '"', "&quot;"@, '"');
    replacing_adds_none(c, '"', "&quot;"@, '<');
    replacing_adds_none(c, '"', "&quot;"@, '>');
    if !s.contains('&') && !s.contains('<') && !s.contains('>') && !s.contains('"') {
        replacing_nothing(s, '&', "&amp;"@);
        replacing_nothing(s, '<', "&lt;"@);
        replacing_nothing(s, '>', "&gt;"@);
        replacing_nothing(s, '"', "&quot;"@);
    }
}

/// A gate that did not pass is reported as a failure with what was found, and one that passed is not.
#[verifier::rlimit(40)]
pub proof fn failures_are_reported_as_such(r: GateResult)
    ensures
        !r.passed ==> occurs(
            case_xml(r),
            "    <failure message=\""@ + xml_escaped(r.details@) + "\">"@ + xml_escaped(r.details@) + "</failure>\n"@,
        ),
        r.passed ==> occurs(case_xml(r), "    <system-out>"@ + xml_escaped(r.details@) + "</system-out>\n"@),
        occurs(
            case_xml(r),
            "  <testcase classname=\"migration-safety\" name=\""@ + r.gate.label() + "\">\n"@,
        ),
{
    let head = "  <testcase classname=\"migration-safety\" name=\""@ + r.gate.label() + "\">\n"@;
    let fail = "    <failure message=\""@ + xml_escaped(r.details@) + "\">"@ + xml_escaped(r.details@)
        + "</failure>\n"@;
    let fine = "    <system-out>"@ + xml_escaped(r.details@) + "</system-out>\n"@;
    let body = if r.passed {
        fine
    } else {
        fail
    };
    let end = "  </testcase>\n"@;
    let none = Seq::<char>::empty();
    assert(case_xml(r) =~= head + body + end);
    assert(case_xml(r) =~= none + head + (body + end));
    written_text_occurs(head, body, end);
    written_text_occurs(none, head, body + end);
}

/// Every gate has its case in the report, and the report counts the gates and those that did not
/// pass.
pub proof fn every_gate_has_its_case(results: Seq<GateResult>, i: int)
    requires
        0 <= i < results.len(),
    ensures
        occurs(cases_xml(results), case_xml(results[i])),
        failed_count(results) == results.filter(|r: GateResult| !r.passed).len(),
    decreases results.len(),
{
    let front = results.drop_last();
    let own = case_xml(results[i]);
    let none = Seq::<char>::empty();
    failures_are_counted(results);
    if i < front.len() {
        assert(front[i] == results[i]);
        every_gate_has_its_case(front, i);
    } else {
        assert(none + own + none =~= own);
        written_text_occurs(none, own, none);
    }
    either_holds(cases_xml(front), case_xml(results.last()), own);
}

/// The failures are the results that did not pass.
proof fn failures_are_counted(results: Seq<GateResult>)
    ensures
        failed_count(results) == results.filter(|r: GateResult| !r.passed).len(),
    decreases results.len(),
{
    reveal(Seq::filter);
    if results.len() > 0 {
        failures_are_counted(results.drop_last());
    }
}

/// The heading of a report names the migration and says how many gates it went through and how many
/// it failed.
pub proof fn headings_count_gates(r: GateReport)
    ensures
        occurs(suite_xml(r), "\" tests=\""@ + dec(r.results@.len()) + "\" failures=\""@),
        occurs(suite_xml(r), "\" failures=\""@ + dec(failed_count(r.results@)) + "\">\n"@),
        occurs(suite_xml(r), "-"@ + xml_escaped(r.name@)),
{
    let a = "<?xml version=\"1.0\" encoding=\"UTF-8\"?>\n<testsuite name=\"migration-"@;
    let b = four_digits(r.version as nat);
    let c = "-"@;
    let d = xml_escaped(r.name@);
    let e = "\" tests=\""@;
    let f = dec(r.results@.len());
    let g = "\" failures=\""@;
    let h = dec(failed_count(r.results@));
    let k = "\">\n"@;
    let u = a + b + c + d;
    assert(suite_xml(r) == u + e + f + g + h + k);
    two_end(a + b, c, d);
    four_more(u, e, f, g, h, c + d);
    either_holds(u + e + f + g + h, k, c + d);
    three_end(u, e, f, g);
    either_holds(u + e + f + g, h, e + f + g);
    either_holds(u + e + f + g + h, k, e + f + g);
    three_end(u + e + f, g, h, k);
}

/// What stands around a name, such as quotes and brackets, is taken off both ends and nothing else.
pub proof fn names_lose_their_edges(s: Seq<char>)
    ensures
        edge_start(s).len() > 0 ==> edge_start(s)[0] != '"' && edge_start(s)[0] != ';' && edge_start(s)[0] != '('
            && edge_start(s)[0] != ',',
        edge_start(s).len() <= s.len(),
        edge_start(s) == s.skip(s.len() - edge_start(s).len()),
        forall|i: int|
            0 <= i < s.len() - edge_start(s).len() ==> #[trigger] s[i] == '"' || s[i] == ';' || s[i] == '(' || s[i]
                == ',',
    decreases s.len(),
{
    if s.len() > 0 && is_edge(s[0]) {
        let rest = s.drop_first();
        names_lose_their_edges(rest);
        let n = s.len() - edge_start(s).len();
        assert(s.skip(n) =~= rest.skip(n - 1));
        assert forall|i: int| 0 <= i < n implies #[trigger] s[i] == '"' || s[i] == ';' || s[i] == '(' || s[i]
            == ',' by {
            if i > 0 {
                assert(rest[i - 1] == s[i]);
            }
        }
    } else {
        assert(s.skip(0) =~= s);
    }
}

/// The same holds of the other end.
pub proof fn names_lose_their_ends(s: Seq<char>)
    ensures
        edge_end(s).len() > 0 ==> edge_end(s).last() != '"' && edge_end(s).last() != ';' && edge_end(s).last() != '('
            && edge_end(s).last() != ',',
        edge_end(s).len() <= s.len(),
        edge_end(s) == s.take(edge_end(s).len() as int),
        forall|i: int|
            edge_end(s).len() <= i < s.len() ==> #[trigger] s[i] == '"' || s[i] == ';' || s[i] == '(' || s[i] == ',',
    decreases s.len(),
{
    if s.len() > 0 && is_edge(s.last()) {
        let rest = s.drop_last();
        names_lose_their_ends(rest);
        let n = edge_end(s).len() as int;
        assert(s.take(n) =~= rest.take(n));
        assert forall|i: int| n <= i < s.len() implies #[trigger] s[i] == '"' || s[i] == ';' || s[i] == '(' || s[i]
            == ',' by {
            if i < rest.len() {
                assert(rest[i] == s[i]);
            }
        }
    } else {
        assert(s.take(s.len() as int) =~= s);
    }
}

/// A column that a statement names is found, the first one where it names several, and none where
/// it names none.
pub proof fn the_first_named_column_is_found(stmt: Seq<char>, columns: Seq<ProdColumn>, i: int)
    ensures
        0 <= i < columns.len() && occurs(stmt, uppercase(columns[i].name@)) && (forall|j: int|
            0 <= j < i ==> !occurs(stmt, uppercase((#[trigger] columns[j]).name@))) ==> named_column(stmt, columns)
            == Some(columns[i]),
        (forall|j: int| 0 <= j < columns.len() ==> !occurs(stmt, uppercase((#[trigger] columns[j]).name@)))
            ==> named_column(stmt, columns) is None,
    decreases columns.len(),
{
    if columns.len() > 0 {
        let rest = columns.drop_first();
        the_first_named_column_is_found(stmt, rest, i - 1);
        if 0 < i < columns.len() {
            assert(rest[i - 1] == columns[i]);
            assert(columns[0] == columns[0]);
            if forall|j: int| 0 <= j < i ==> !occurs(stmt, uppercase((#[trigger] columns[j]).name@)) {
                assert forall|j: int| 0 <= j < i - 1 implies !occurs(stmt, uppercase((#[trigger] rest[j]).name@)) by {
                    assert(rest[j] == columns[j + 1]);
                }
            }
        }
        if forall|j: int| 0 <= j < columns.len() ==> !occurs(stmt, uppercase((#[trigger] columns[j]).name@)) {
            assert(!occurs(stmt, uppercase(columns[0].name@)));
            assert forall|j: int| 0 <= j < rest.len() implies !occurs(stmt, uppercase((#[trigger] rest[j]).name@)) by {
                assert(rest[j] == columns[j + 1]);
            }
        }
    }
}

} // verus!
