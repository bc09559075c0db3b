//! Text building blocks: strings are viewed as sequences of characters.

use vstd::prelude::*;
#[allow(unused_imports)]
use vstd::string::*;

verus! {

/// The character of one decimal digit.
pub open spec fn digit(d: nat) -> char {
    ((48 + d) as u8) as char
}

/// The decimal digits of `n`, most significant first.
pub open spec fn dec(n: nat) -> Seq<char>
    decreases n,
{
    if n < 10 {
        seq![digit(n)]
    } else {
        dec(n / 10).push(digit(n % 10))
    }
}

/// The decimal form of a signed number: a minus sign in front where it is negative.
pub open spec fn dec_int(n: int) -> Seq<char> {
    if n < 0 {
        seq!['-'] + dec((-n) as nat)
    } else {
        dec(n as nat)
    }
}

/// `String::push` appends one character at the end.
pub assume_specification[ String::push ](s: &mut String, c: char)
    ensures
        final(s)@ == old(s)@.push(c),
;

/// Renders `n` in decimal.
pub fn decimal(n: u64) -> (out: String)
    ensures
        out@ == dec(n as nat),
{
    decimal_wide(n as u128)
}

/// Renders `n` in decimal.
pub fn decimal_wide(n: u128) -> (out: String)
    ensures
        out@ == dec(n as nat),
    decreases n,
{
    let d: u8 = 48 + ((n % 10) as u8);
    if n < 10 {
        let mut out = String::new();
        out.push(d as char);
        out
    } else {
        let mut out = decimal_wide(n / 10);
        out.push(d as char);
        out
    }
}

/// Renders a signed number in decimal.
pub fn decimal_signed(n: i64) -> (out: String)
    ensures
        out@ == dec_int(n as int),
{
    if n < 0 {
        let magnitude: u64 = (-(n + 1)) as u64 + 1;
        let mut out = String::new();
        out.push('-');
        out.append(decimal(magnitude).as_str());
        proof {
            assert(out@ =~= seq!['-'] + dec(magnitude as nat));
        }
        out
    } else {
        decimal(n as u64)
    }
}

/// Whether two strings have the same characters.
pub fn same(a: &str, b: &str) -> (r: bool)
    ensures
        r == (a@ == b@),
{
    let mut x = a.chars();
    let mut y = b.chars();
    let ghost mut i: int = 0;
    proof {
        assert(a@.skip(0) =~= a@);
        assert(b@.skip(0) =~= b@);
        assert(a@.take(0) =~= b@.take(0));
    }
    loop
        invariant
            0 <= i <= a@.len(),
            i <= b@.len(),
            vstd::std_specs::iter::IteratorSpec::remaining(&x) == a@.skip(i),
            vstd::std_specs::iter::IteratorSpec::remaining(&y) == b@.skip(i),
            a@.take(i) == b@.take(i),
        decreases a@.len() - i,
    {
        match (x.next(), y.next()) {
            (Some(c), Some(d)) => {
                proof {
                    assert(a@.skip(i).drop_first() =~= a@.skip(i + 1));
                    assert(b@.skip(i).drop_first() =~= b@.skip(i + 1));
                    assert(a@.take(i + 1) =~= a@.take(i).push(c));
                    assert(b@.take(i + 1) =~= b@.take(i).push(d));
                }
                if c != d {
                    return false;
                }
                proof {
                    i = i + 1;
                }
            },
            (None, None) => {
                proof {
                    assert(a@.take(i) =~= a@);
                    assert(b@.take(i) =~= b@);
                }
                return true;
            },
            _ => {
                return false;
            },
        }
    }
}

/// Lexicographic order of character sequences, by code point.
pub open spec fn lex_lt(a: Seq<char>, b: Seq<char>) -> bool
    decreases a.len(),
{
    if b.len() == 0 {
        false
    } else if a.len() == 0 {
        true
    } else if a[0] != b[0] {
        a[0] < b[0]
    } else {
        lex_lt(a.drop_first(), b.drop_first())
    }
}

/// `a` comes before `b` or is equal to it.
pub open spec fn lex_le(a: Seq<char>, b: Seq<char>) -> bool {
    lex_lt(a, b) || a == b
}

/// Whether `a` comes before `b` in the order of their code points.
pub fn before(a: &str, b: &str) -> (r: bool)
    ensures
        r == lex_lt(a@, b@),
{
    let mut x = a.chars();
    let mut y = b.chars();
    let ghost mut i: int = 0;
    proof {
        assert(a@.skip(0) =~= a@);
        assert(b@.skip(0) =~= b@);
    }
    loop
        invariant
            0 <= i <= a@.len(),
            i <= b@.len(),
            vstd::std_specs::iter::IteratorSpec::remaining(&x) == a@.skip(i),
            vstd::std_specs::iter::IteratorSpec::remaining(&y) == b@.skip(i),
            lex_lt(a@, b@) == lex_lt(a@.skip(i), b@.skip(i)),
        decreases a@.len() - i,
    {
        match (x.next(), y.next()) {
            (Some(c), Some(d)) => {
                proof {
                    assert(a@.skip(i).drop_first() =~= a@.skip(i + 1));
                    assert(b@.skip(i).drop_first() =~= b@.skip(i + 1));
                }
                if c != d {
                    return c < d;
                }
                proof {
                    i = i + 1;
                }
            },
            (None, Some(_)) => {
                return true;
            },
            (_, None) => {
                return false;
            },
        }
    }
}

/// The order is irreflexive.
pub proof fn lex_irreflexive(a: Seq<char>)
    ensures
        !lex_lt(a, a),
    decreases a.len(),
{
    if a.len() > 0 {
        lex_irreflexive(a.drop_first());
    }
}

/// Of two different sequences one comes first.
pub proof fn lex_total(a: Seq<char>, b: Seq<char>)
    ensures
        lex_lt(a, b) || a == b || lex_lt(b, a),
        !(lex_lt(a, b) && lex_lt(b, a)),
    decreases a.len(),
{
    if a.len() > 0 && b.len() > 0 {
        if a[0] == b[0] {
            lex_total(a.drop_first(), b.drop_first());
            if a.drop_first() == b.drop_first() {
                assert(a =~= seq![a[0]] + a.drop_first());
                assert(b =~= seq![b[0]] + b.drop_first());
            }
        }
    } else if a.len() == 0 && b.len() == 0 {
        assert(a =~= b);
    }
}

/// The order is transitive.
pub proof fn lex_transitive(a: Seq<char>, b: Seq<char>, c: Seq<char>)
    requires
        lex_lt(a, b),
        lex_lt(b, c),
    ensures
        lex_lt(a, c),
    decreases a.len(),
{
    if a.len() > 0 && b.len() > 0 && c.len() > 0 && a[0] == b[0] && b[0] == c[0] {
        lex_transitive(a.drop_first(), b.drop_first(), c.drop_first());
    }
}

/// The characters of a string.
pub fn chars(s: &str) -> (out: Vec<char>)
    ensures
        out@ == s@,
{
    let mut out: Vec<char> = Vec::new();
    for c in it: s.chars()
        invariant
            it.seq() == s@,
            out@ == s@.take(it.index() as int),
    {
        out.push(c);
        proof {
            assert(s@.take(it.index() as int + 1) =~= s@.take(it.index() as int).push(c));
        }
    }
    proof {
        assert(s@.take(s@.len() as int) =~= s@);
    }
    out
}

/// The string of `v[from..to]`.
pub fn text_of(v: &Vec<char>, from: usize, to: usize) -> (out: String)
    requires
        from <= to <= v@.len(),
    ensures
        out@ == v@.subrange(from as int, to as int),
{
    let mut out = String::new();
    let mut i: usize = from;
    while i < to
        invariant
            from <= i <= to <= v@.len(),
            out@ == v@.subrange(from as int, i as int),
        decreases to - i,
    {
        out.push(v[i]);
        proof {
            assert(v@.subrange(from as int, i as int + 1) =~= v@.subrange(from as int, i as int).push(v@[i as int]));
        }
        i = i + 1;
    }
    out
}

/// The characters with the Unicode White_Space property.
pub open spec fn is_white(c: char) -> bool {
    let n = c as u32;
    ||| 9 <= n <= 13
    ||| n == 32
    ||| n == 0x85
    ||| n == 0xA0
    ||| n == 0x1680
    ||| 0x2000 <= n <= 0x200A
    ||| n == 0x2028
    ||| n == 0x2029
    ||| n == 0x202F
    ||| n == 0x205F
    ||| n == 0x3000
}

/// Whether `c` is white space.
pub fn white(c: char) -> (r: bool)
    ensures
        r == is_white(c),
{
    let n: u32 = c as u32;
    (9 <= n && n <= 13) || n == 32 || n == 0x85 || n == 0xA0 || n == 0x1680 || (0x2000 <= n && n
        <= 0x200A) || n == 0x2028 || n == 0x2029 || n == 0x202F || n == 0x205F || n == 0x3000
}

/// `s` without leading white space.
pub open spec fn trim_start(s: Seq<char>) -> Seq<char>
    decreases s.len(),
{
    if s.len() > 0 && is_white(s[0]) {
        trim_start(s.drop_first())
    } else {
        s
    }
}

/// `s` without trailing white space.
pub open spec fn trim_end(s: Seq<char>) -> Seq<char>
    decreases s.len(),
{
    if s.len() > 0 && is_white(s.last()) {
        trim_end(s.drop_last())
    } else {
        s
    }
}

/// `s` without white space at either end.
pub open spec fn trimmed(s: Seq<char>) -> Seq<char> {
    trim_end(trim_start(s))
}

/// Removes white space at both ends.
pub fn trim(s: &str) -> (out: String)
    ensures
        out@ == trimmed(s@),
{
    let v = chars(s);
    let mut from: usize = 0;
    proof {
        assert(v@.skip(0) =~= v@);
    }
    while from < v.len() && white(v[from])
        invariant
            from <= v@.len(),
            v@ == s@,
            trim_start(s@) == trim_start(v@.skip(from as int)),
        decreases v@.len() - from,
    {
        proof {
            assert(v@.skip(from as int).drop_first() =~= v@.skip(from as int + 1));
        }
        from = from + 1;
    }
    let mut to: usize = v.len();
    proof {
        assert(v@.skip(from as int) =~= v@.subrange(from as int, to as int));
    }
    while to > from && white(v[to - 1])
        invariant
            from <= to <= v@.len(),
            trim_start(s@) == v@.skip(from as int),
            trimmed(s@) == trim_end(v@.subrange(from as int, to as int)),
        decreases to,
    {
        proof {
            assert(v@.subrange(from as int, to as int).drop_last() =~= v@.subrange(from as int, to as int - 1));
        }
        to = to - 1;
    }
    text_of(&v, from, to)
}

/// Whether `s` holds nothing but white space.
pub fn blank(s: &str) -> (r: bool)
    ensures
        r == (trimmed(s@).len() == 0),
{
    trim(s).as_str().is_empty()
}

/// `pat` occurs in `s` at position `i`.
pub open spec fn occurs_at(s: Seq<char>, pat: Seq<char>, i: int) -> bool {
    0 <= i && i + pat.len() <= s.len() && s.subrange(i, i + pat.len()) == pat
}

/// `pat` occurs somewhere in `s`.
pub open spec fn occurs(s: Seq<char>, pat: Seq<char>) -> bool {
    exists|i: int| #[trigger] occurs_at(s, pat, i)
}

/// Whether `pat` occurs in `s` at position `i`.
pub fn at_position(s: &Vec<char>, pat: &Vec<char>, i: usize) -> (r: bool)
    ensures
        r == occurs_at(s@, pat@, i as int),
{
    if i > s.len() || pat.len() > s.len() - i {
        return false;
    }
    let n: usize = s.len();
    let mut j: usize = 0;
    while j < pat.len()
        invariant
            0 <= j <= pat@.len(),
            i + pat@.len() <= s@.len(),
            n == s@.len(),
            s@.subrange(i as int, i + j) == pat@.take(j as int),
        decreases pat@.len() - j,
    {
        if s[i + j] != pat[j] {
            proof {
                if occurs_at(s@, pat@, i as int) {
                    assert(s@.subrange(i as int, i + pat@.len())[j as int] == pat@[j as int]);
                }
            }
            return false;
        }
        proof {
            assert(s@.subrange(i as int, i + j + 1) =~= s@.subrange(i as int, i + j).push(s@[i + j]));
            assert(pat@.take(j as int + 1) =~= pat@.take(j as int).push(pat@[j as int]));
        }
        j = j + 1;
    }
    proof {
        assert(pat@.take(pat@.len() as int) =~= pat@);
    }
    true
}

/// Whether `pat` occurs in `s`.
pub fn contains(s: &str, pat: &str) -> (r: bool)
    ensures
        r == occurs(s@, pat@),
{
    let v = chars(s);
    let p = chars(pat);
    let mut i: usize = 0;
    while i < v.len()
        invariant
            0 <= i <= v@.len(),
            v@ == s@,
            p@ == pat@,
            forall|k: int| 0 <= k < i ==> !occurs_at(s@, pat@, k),
        decreases v@.len() - i,
    {
        if at_position(&v, &p, i) {
            return true;
        }
        i = i + 1;
    }
    at_position(&v, &p, i)
}

/// `s` starts with `pat`.
pub open spec fn begins(s: Seq<char>, pat: Seq<char>) -> bool {
    occurs_at(s, pat, 0)
}

/// Whether `s` starts with `pat`.
pub fn starts_with(s: &str, pat: &str) -> (r: bool)
    ensures
        r == begins(s@, pat@),
{
    at_position(&chars(s), &chars(pat), 0)
}

/// The position of the first `c` in `s`, or the length of `s` where there is none.
pub open spec fn position_of(s: Seq<char>, c: char) -> nat
    decreases s.len(),
{
    if s.len() == 0 || s[0] == c {
        0
    } else {
        1 + position_of(s.drop_first(), c)
    }
}

/// The pieces of `s` between occurrences of `sep`; always at least one piece.
pub open spec fn split(s: Seq<char>, sep: char) -> Seq<Seq<char>>
    decreases s.len(),
{
    if s.len() == 0 {
        seq![s]
    } else {
        let rest = split(s.drop_last(), sep);
        if s.last() == sep {
            rest.push(Seq::empty())
        } else {
            rest.drop_last().push(rest.last().push(s.last()))
        }
    }
}

/// The views of a sequence of strings.
pub open spec fn views(v: Seq<String>) -> Seq<Seq<char>> {
    v.map_values(|s: String| s@)
}

/// Splitting gives at least one piece.
pub proof fn split_nonempty(s: Seq<char>, sep: char)
    ensures
        split(s, sep).len() > 0,
    decreases s.len(),
{
    if s.len() > 0 {
        split_nonempty(s.drop_last(), sep);
    }
}

/// Splits `s` at each `sep`.
pub fn split_on(s: &str, sep: char) -> (out: Vec<String>)
    ensures
        views(out@) == split(s@, sep),
{
    let v = chars(s);
    let mut out: Vec<String> = Vec::new();
    let mut cur = String::new();
    let mut i: usize = 0;
    proof {
        assert(s@.take(0) =~= Seq::<char>::empty());
        assert(views(out@).push(cur@) =~= split(s@.take(0), sep));
    }
    while i < v.len()
        invariant
            0 <= i <= v@.len(),
            v@ == s@,
            views(out@).push(cur@) == split(s@.take(i as int), sep),
        decreases v@.len() - i,
    {
        let c = v[i];
        proof {
            assert(s@.take(i as int + 1).drop_last() =~= s@.take(i as int));
        }
        let ghost before = views(out@).push(cur@);
        if c == sep {
            out.push(cur);
            cur = String::new();
            proof {
                assert(views(out@) =~= before);
                assert(split(s@.take(i as int + 1), sep) == before.push(Seq::<char>::empty()));
            }
        } else {
            cur.push(c);
            proof {
                assert(before.drop_last() =~= views(out@));
            }
        }
        i = i + 1;
    }
    proof {
        assert(s@.take(s@.len() as int) =~= s@);
    }
    let ghost before = views(out@).push(cur@);
    out.push(cur);
    proof {
        assert(views(out@) =~= before);
    }
    out
}

/// `s` with each `from` replaced by the text `to`.
pub open spec fn replaced(s: Seq<char>, from: char, to: Seq<char>) -> Seq<char>
    decreases s.len(),
{
    if s.len() == 0 {
        s
    } else if s.last() == from {
        replaced(s.drop_last(), from, to) + to
    } else {
        replaced(s.drop_last(), from, to).push(s.last())
    }
}

/// Replaces each `from` in `s` by `to`.
pub fn replace(s: &str, from: char, to: &str) -> (out: String)
    ensures
        out@ == replaced(s@, from, to@),
{
    let v = chars(s);
    let mut out = String::new();
    let mut i: usize = 0;
    proof {
        assert(s@.take(0) =~= Seq::<char>::empty());
    }
    while i < v.len()
        invariant
            0 <= i <= v@.len(),
            v@ == s@,
            out@ == replaced(s@.take(i as int), from, to@),
        decreases v@.len() - i,
    {
        let c = v[i];
        proof {
            assert(s@.take(i as int + 1).drop_last() =~= s@.take(i as int));
        }
        if c == from {
            out.append(to);
        } else {
            out.push(c);
        }
        i = i + 1;
    }
    proof {
        assert(s@.take(s@.len() as int) =~= s@);
    }
    out
}

/// The pieces in order, with `sep` between neighbours.
pub open spec fn joined(parts: Seq<Seq<char>>, sep: Seq<char>) -> Seq<char>
    decreases parts.len(),
{
    if parts.len() == 0 {
        Seq::empty()
    } else if parts.len() == 1 {
        parts[0]
    } else {
        joined(parts.drop_last(), sep) + sep + parts.last()
    }
}

/// Joins the strings with `sep` between neighbours.
pub fn join(parts: &Vec<String>, sep: &str) -> (out: String)
    ensures
        out@ == joined(views(parts@), sep@),
{
    let mut out = String::new();
    let mut i: usize = 0;
    while i < parts.len()
        invariant
            0 <= i <= parts@.len(),
            out@ == joined(views(parts@).take(i as int), sep@),
        decreases parts@.len() - i,
    {
        proof {
            assert(views(parts@).take(i as int + 1).drop_last() =~= views(parts@).take(i as int));
        }
        if i > 0 {
            out.append(sep);
        }
        out.append(parts[i].as_str());
        proof {
            if i == 0 {
                assert(out@ =~= parts@[0]@);
            }
        }
        i = i + 1;
    }
    proof {
        assert(views(parts@).take(parts@.len() as int) =~= views(parts@));
    }
    out
}

/// A text of ASCII characters.
pub open spec fn is_ascii_text(s: Seq<char>) -> bool {
    forall|i: int| 0 <= i < s.len() ==> #[trigger] s[i] < '\u{80}'
}

/// The lower-case form of an ASCII letter; any other character stays.
pub open spec fn ascii_lower(c: char) -> char {
    if 'A' <= c <= 'Z' {
        (c as int + 32) as char
    } else {
        c
    }
}

/// The upper-case form of an ASCII letter; any other character stays.
pub open spec fn ascii_upper(c: char) -> char {
    if 'a' <= c <= 'z' {
        (c as int - 32) as char
    } else {
        c
    }
}

/// What `str::to_lowercase` gives: the Unicode lower-case mapping of a text.
pub uninterp spec fn lowercase(s: Seq<char>) -> Seq<char>;

/// `str::to_lowercase`. The mapping is that of the Unicode tables; it is named, not restated,
/// but for texts of ASCII characters, where it turns `A` to `Z` into `a` to `z`.
#[verifier::external_body]
pub(crate) fn to_lowercase(s: &str) -> (out: String)
    ensures
        out@ == lowercase(s@),
        is_ascii_text(s@) ==> out@ == s@.map_values(|c: char| ascii_lower(c)),
{
    s.to_lowercase()
}

/// What `str::to_uppercase` gives: the Unicode upper-case mapping of a text.
pub uninterp spec fn uppercase(s: Seq<char>) -> Seq<char>;

/// `str::to_uppercase`. The mapping is that of the Unicode tables; it is named, not restated,
/// but for texts of ASCII characters, where it turns `a` to `z` into `A` to `Z`.
#[verifier::external_body]
pub(crate) fn to_uppercase(s: &str) -> (out: String)
    ensures
        out@ == uppercase(s@),
        is_ascii_text(s@) ==> out@ == s@.map_values(|c: char| ascii_upper(c)),
{
    s.to_uppercase()
}

/// The position of the first string of `v` that reads `key`.
pub fn find(v: &Vec<String>, key: &str) -> (r: Option<usize>)
    ensures
        r is Some <==> views(v@).contains(key@),
        r matches Some(i) ==> i < v@.len() && v@[i as int]@ == key@ && forall|j: int|
            0 <= j < i ==> v@[j]@ != key@,
{
    let mut i: usize = 0;
    while i < v.len()
        invariant
            0 <= i <= v@.len(),
            forall|j: int| 0 <= j < i ==> v@[j]@ != key@,
        decreases v@.len() - i,
    {
        if same(v[i].as_str(), key) {
            proof {
                assert(views(v@)[i as int] == key@);
            }
            return Some(i);
        }
        i = i + 1;
    }
    proof {
        if views(v@).contains(key@) {
            let k = choose|k: int| 0 <= k < views(v@).len() && views(v@)[k] == key@;
            assert(v@[k]@ == key@);
        }
    }
    None
}

/// Copies a vector of strings.
pub fn copy_strings(v: &Vec<String>) -> (out: Vec<String>)
    ensures
        out@ == v@,
{
    let mut out: Vec<String> = Vec::new();
    let mut i: usize = 0;
    while i < v.len()
        invariant
            0 <= i <= v@.len(),
            out@ == v@.take(i as int),
        decreases v@.len() - i,
    {
        out.push(v[i].clone());
        proof {
            assert(v@.take(i as int + 1) =~= v@.take(i as int).push(v@[i as int]));
        }
        i = i + 1;
    }
    proof {
        assert(v@.take(v@.len() as int) =~= v@);
    }
    out
}

/// `s` without leading `c`s.
pub open spec fn strip_start(s: Seq<char>, c: char) -> Seq<char>
    decreases s.len(),
{
    if s.len() > 0 && s[0] == c {
        strip_start(s.drop_first(), c)
    } else {
        s
    }
}

/// `s` without trailing `c`s.
pub open spec fn strip_end(s: Seq<char>, c: char) -> Seq<char>
    decreases s.len(),
{
    if s.len() > 0 && s.last() == c {
        strip_end(s.drop_last(), c)
    } else {
        s
    }
}

/// Removes leading `c`s.
pub fn trim_start_matches(s: &str, c: char) -> (out: String)
    ensures
        out@ == strip_start(s@, c),
{
    let v = chars(s);
    let mut from: usize = 0;
    proof {
        assert(v@.skip(0) =~= v@);
    }
    while from < v.len() && v[from] == c
        invariant
            from <= v@.len(),
            v@ == s@,
            strip_start(s@, c) == strip_start(v@.skip(from as int), c),
        decreases v@.len() - from,
    {
        proof {
            assert(v@.skip(from as int).drop_first() =~= v@.skip(from as int + 1));
        }
        from = from + 1;
    }
    proof {
        assert(v@.skip(from as int) =~= v@.subrange(from as int, v@.len() as int));
    }
    text_of(&v, from, v.len())
}

/// Removes trailing `c`s.
pub fn trim_end_matches(s: &str, c: char) -> (out: String)
    ensures
        out@ == strip_end(s@, c),
{
    let v = chars(s);
    let mut to: usize = v.len();
    proof {
        assert(v@.take(v@.len() as int) =~= v@);
    }
    while to > 0 && v[to - 1] == c
        invariant
            to <= v@.len(),
            v@ == s@,
            strip_end(s@, c) == strip_end(v@.take(to as int), c),
        decreases to,
    {
        proof {
            assert(v@.take(to as int).drop_last() =~= v@.take(to as int - 1));
        }
        to = to - 1;
    }
    proof {
        assert(v@.take(to as int) =~= v@.subrange(0, to as int));
    }
    text_of(&v, 0, to)
}

/// The part of `s` before the first `c`; all of it where there is none.
pub open spec fn up_to(s: Seq<char>, c: char) -> Seq<char> {
    s.take(position_of(s, c) as int)
}

/// The first position of a character lies within the text or at its end.
pub proof fn position_bounds(s: Seq<char>, c: char)
    ensures
        position_of(s, c) <= s.len(),
        position_of(s, c) < s.len() ==> s[position_of(s, c) as int] == c,
        forall|j: int| 0 <= j < position_of(s, c) ==> s[j] != c,
    decreases s.len(),
{
    if s.len() > 0 && s[0] != c {
        position_bounds(s.drop_first(), c);
        assert forall|j: int| 0 <= j < position_of(s, c) implies s[j] != c by {
            if j > 0 {
                assert(s.drop_first()[j - 1] == s[j]);
            }
        }
    }
}

/// The position of the first `c` in `v`, or the length of `v` where there is none.
pub fn find_char(v: &Vec<char>, c: char) -> (i: usize)
    ensures
        i == position_of(v@, c),
        i <= v@.len(),
{
    let mut i: usize = 0;
    while i < v.len() && v[i] != c
        invariant
            i <= v@.len(),
            forall|j: int| 0 <= j < i ==> v@[j] != c,
        decreases v@.len() - i,
    {
        i = i + 1;
    }
    proof {
        position_bounds(v@, c);
        let p = position_of(v@, c) as int;
        if p < i {
            assert(v@[p] != c);
        } else if i < p {
            assert(v@[i as int] != c);
        }
    }
    i
}

/// The part of `s` before the first `c`.
pub fn before_char(s: &str, c: char) -> (out: String)
    ensures
        out@ == up_to(s@, c),
{
    let v = chars(s);
    let i: usize = find_char(&v, c);
    proof {
        assert(v@.take(i as int) =~= v@.subrange(0, i as int));
    }
    text_of(&v, 0, i)
}

/// The words of `s`: its longest runs without white space.
pub open spec fn words(s: Seq<char>) -> Seq<Seq<char>>
    decreases s.len(),
{
    if s.len() == 0 {
        Seq::empty()
    } else {
        let rest = words(s.drop_last());
        if is_white(s.last()) {
            rest
        } else if s.len() == 1 || is_white(s[s.len() - 2]) {
            rest.push(Seq::empty().push(s.last()))
        } else {
            rest.drop_last().push(rest.last().push(s.last()))
        }
    }
}

/// Splits `s` at white space.
pub fn split_words(s: &str) -> (out: Vec<String>)
    ensures
        views(out@) == words(s@),
{
    let v = chars(s);
    let mut out: Vec<String> = Vec::new();
    let mut cur = String::new();
    let mut open = false;
    let mut i: usize = 0;
    proof {
        assert(s@.take(0) =~= Seq::<char>::empty());
        assert(views(out@) =~= words(s@.take(0)));
    }
    while i < v.len()
        invariant
            i <= v@.len(),
            v@ == s@,
            open ==> i > 0 && !is_white(s@[i - 1]) && views(out@).push(cur@) == words(s@.take(i as int)),
            !open ==> (i == 0 || is_white(s@[i - 1])) && views(out@) == words(s@.take(i as int)) && cur@.len() == 0,
        decreases v@.len() - i,
    {
        let c = v[i];
        let ghost t = s@.take(i as int + 1);
        proof {
            assert(t.drop_last() =~= s@.take(i as int));
        }
        let ghost done = views(out@);
        let ghost part = cur@;
        if white(c) {
            if open {
                out.push(cur);
                cur = String::new();
                open = false;
                proof {
                    assert(views(out@) =~= done.push(part));
                }
            }
        } else {
            cur.push(c);
            proof {
                if open {
                    assert(done.push(part).drop_last() =~= done);
                } else {
                    assert(part =~= Seq::<char>::empty());
                }
            }
            open = true;
        }
        i = i + 1;
    }
    proof {
        assert(s@.take(s@.len() as int) =~= s@);
    }
    if open {
        let ghost done = views(out@);
        let ghost part = cur@;
        out.push(cur);
        proof {
            assert(views(out@) =~= done.push(part));
        }
    }
    out
}

/// A copy of an optional string.
pub fn copy_opt(o: &Option<String>) -> (out: Option<String>)
    ensures
        out == *o,
{
    match o {
        Some(s) => Some(s.clone()),
        None => None,
    }
}

/// An optional string as an optional sequence of characters.
pub open spec fn opt_view(o: Option<String>) -> Option<Seq<char>> {
    match o {
        Some(s) => Some(s@),
        None => None,
    }
}

/// Whether two optional strings are equal.
pub fn same_opt(a: &Option<String>, b: &Option<String>) -> (r: bool)
    ensures
        r == (opt_view(*a) == opt_view(*b)),
{
    match (a, b) {
        (Some(x), Some(y)) => same(x.as_str(), y.as_str()),
        (None, None) => true,
        _ => false,
    }
}

/// What `char::is_alphanumeric` says of a character.
pub uninterp spec fn is_alphanumeric(c: char) -> bool;

/// `char::is_alphanumeric`: the Unicode classes of letters and numbers; they are named, not
/// restated, but for ASCII characters, where they are the letters and the digits.
#[verifier::external_body]
pub(crate) fn alphanumeric(c: char) -> (r: bool)
    ensures
        r == is_alphanumeric(c),
        c < '\u{80}' ==> r == ('a' <= c <= 'z' || 'A' <= c <= 'Z' || '0' <= c <= '9'),
{
    c.is_alphanumeric()
}

/// `n` in decimal with at least four digits.
pub open spec fn four_digits(n: nat) -> Seq<char> {
    if n < 10 {
        "000"@ + dec(n)
    } else if n < 100 {
        "00"@ + dec(n)
    } else if n < 1000 {
        "0"@ + dec(n)
    } else {
        dec(n)
    }
}

/// Renders `n` with at least four digits.
pub fn decimal_four(n: u64) -> (out: String)
    ensures
        out@ == four_digits(n as nat),
{
    let digits = decimal(n);
    if n < 1000 {
        let mut out = if n < 10 {
            "000".to_owned()
        } else if n < 100 {
            "00".to_owned()
        } else {
            "0".to_owned()
        };
        out.append(digits.as_str());
        out
    } else {
        digits
    }
}

/// What `format!("{:?}")` gives for a string: in quotes, with escapes.
pub uninterp spec fn text_debug(s: Seq<char>) -> Seq<char>;

/// A text that needs no escapes: ASCII letters, digits, spaces and marks, but no quotes and no
/// backslash.
pub open spec fn is_plain(s: Seq<char>) -> bool {
    forall|i: int|
        0 <= i < s.len() ==> ' ' <= #[trigger] s[i] <= '~' && s[i] != '"' && s[i] != '\'' && s[i] != '\\'
}

/// The text in double quotes.
pub open spec fn in_quotes(s: Seq<char>) -> Seq<char> {
    seq!['"'] + s + seq!['"']
}

/// The `Debug` form of `str`: in double quotes, with std's escapes. The escapes are named,
/// not restated; a text that needs none stands in the quotes as it is.
#[verifier::external_body]
pub(crate) fn debug_text(s: &str) -> (out: String)
    ensures
        out@ == text_debug(s@),
        is_plain(s@) ==> out@ == in_quotes(s@),
{
    format!("{:?}", s)
}

/// How a list of strings is shown: each string in quotes, with commas between, in brackets.
pub open spec fn list_debug(v: Seq<Seq<char>>) -> Seq<char> {
    "["@ + joined(v.map_values(|s: Seq<char>| text_debug(s)), ", "@) + "]"@
}

/// Shows a list of strings.
pub fn debug_list(v: &Vec<String>) -> (out: String)
    ensures
        out@ == list_debug(views(v@)),
{
    let mut shown: Vec<String> = Vec::new();
    let mut i: usize = 0;
    while i < v.len()
        invariant
            i <= v@.len(),
            shown@.len() == i,
            forall|j: int| 0 <= j < i ==> (#[trigger] shown@[j])@ == text_debug(v@[j]@),
        decreases v@.len() - i,
    {
        shown.push(debug_text(v[i].as_str()));
        i = i + 1;
    }
    let mut out = "[".to_owned();
    out.append(join(&shown, ", ").as_str());
    out.append("]");
    proof {
        assert(views(shown@) =~= views(v@).map_values(|s: Seq<char>| text_debug(s)));
    }
    out
}

/// The number of bytes that a character takes in UTF-8.
pub open spec fn utf8_width(c: char) -> int {
    if (c as u32) < 0x80 {
        1
    } else if (c as u32) < 0x800 {
        2
    } else if (c as u32) < 0x10000 {
        3
    } else {
        4
    }
}

/// The number of bytes that a text takes in UTF-8.
pub open spec fn utf8_len(s: Seq<char>) -> int
    decreases s.len(),
{
    if s.len() == 0 {
        0
    } else {
        utf8_len(s.drop_last()) + utf8_width(s.last())
    }
}

/// The first `k` characters of `s` take `n` bytes.
pub open spec fn is_byte_prefix(s: Seq<char>, n: int, k: int) -> bool {
    0 <= k <= s.len() && utf8_len(s.take(k)) == n
}

/// The characters of `s` in its first `n` bytes, where a character ends there.
pub open spec fn byte_prefix(s: Seq<char>, n: int) -> Option<Seq<char>> {
    if exists|k: int| is_byte_prefix(s, n, k) {
        Some(s.take(choose|k: int| is_byte_prefix(s, n, k)))
    } else {
        None
    }
}

/// Longer prefixes take more bytes.
proof fn utf8_grows(s: Seq<char>, j: int, k: int)
    requires
        0 <= j < k <= s.len(),
    ensures
        utf8_len(s.take(j)) < utf8_len(s.take(k)),
    decreases k - j,
{
    assert(s.take(k).drop_last() =~= s.take(k - 1));
    if j < k - 1 {
        utf8_grows(s, j, k - 1);
    }
}

/// The text in the first `n` bytes of `s`; `None` where there are fewer or no character
/// ends there.
pub fn take_bytes(s: &str, n: u32) -> (r: Option<String>)
    ensures
        r is Some <==> byte_prefix(s@, n as int) is Some,
        r matches Some(t) ==> Some(t@) == byte_prefix(s@, n as int),
{
    let v = chars(s);
    let mut total: u64 = 0;
    let mut i: usize = 0;
    while i < v.len() && total < n as u64
        invariant
            v@ == s@,
            i <= v@.len(),
            total == utf8_len(s@.take(i as int)),
            total <= n + 3,
            i > 0 ==> utf8_len(s@.take(i - 1)) < n,
        decreases v@.len() - i,
    {
        proof {
            assert(s@.take(i as int + 1).drop_last() =~= s@.take(i as int));
            assert(s@.take(i as int + 1).last() == v@[i as int]);
        }
        let c: u32 = v[i] as u32;
        let width: u64 = if c < 0x80 {
            1
        } else if c < 0x800 {
            2
        } else if c < 0x10000 {
            3
        } else {
            4
        };
        total = total + width;
        i = i + 1;
    }
    proof {
        assert forall|k: int| 0 <= k <= s@.len() && k != i implies utf8_len(#[trigger] s@.take(k)) != n by {
            if k < i {
                utf8_grows(s@, k, i as int);
                assert(i > 0);
                if k < i - 1 {
                    utf8_grows(s@, k, i - 1);
                }
            } else {
                utf8_grows(s@, i as int, k);
            }
        }
    }
    if total == n as u64 {
        proof {
            assert(is_byte_prefix(s@, n as int, i as int));
            assert(s@.take(i as int) =~= v@.subrange(0, i as int));
        }
        Some(text_of(&v, 0, i))
    } else {
        None
    }
}

/// `first` and then `second`.
pub fn text2(first: &str, second: &str) -> (out: String)
    ensures
        out@ == first@ + second@,
{
    let mut out = first.to_owned();
    out.append(second);
    out
}

/// A text occurs in whatever it is written into.
pub proof fn written_text_occurs(front: Seq<char>, pat: Seq<char>, back: Seq<char>)
    ensures
        occurs(front + pat + back, pat),
{
    let s = front + pat + back;
    assert(s.subrange(front.len() as int, (front.len() + pat.len()) as int) =~= pat);
    assert(occurs_at(s, pat, front.len() as int));
}

/// What occurs in a part of a text occurs in the text.
pub proof fn parts_hold_what_occurs(front: Seq<char>, part: Seq<char>, back: Seq<char>, pat: Seq<char>)
    requires
        occurs(part, pat),
    ensures
        occurs(front + part + back, pat),
{
    let i = choose|i: int| #[trigger] occurs_at(part, pat, i);
    let s = front + part + back;
    assert(s.subrange(front.len() + i, front.len() + i + pat.len()) =~= part.subrange(i, i + pat.len()));
    assert(occurs_at(s, pat, front.len() + i));
}

/// A text is no longer than one that it occurs in.
pub proof fn occurring_texts_fit(s: Seq<char>, pat: Seq<char>)
    requires
        occurs(s, pat),
    ensures
        pat.len() <= s.len(),
{
}

/// Splitting a text loses nothing: its pieces, joined by the separator, are the text, and none
/// of them holds the separator.
pub proof fn pieces_make_up_the_text(s: Seq<char>, sep: char)
    ensures
        joined(split(s, sep), seq![sep]) == s,
        forall|i: int| 0 <= i < split(s, sep).len() ==> !(#[trigger] split(s, sep)[i]).contains(sep),
    decreases s.len(),
{
    split_nonempty(s, sep);
    if s.len() > 0 {
        let front = s.drop_last();
        pieces_make_up_the_text(front, sep);
        split_nonempty(front, sep);
        let rest = split(front, sep);
        let all = split(s, sep);
        if s.last() == sep {
            assert(all.drop_last() =~= rest);
            assert(joined(all, seq![sep]) =~= joined(rest, seq![sep]) + seq![sep] + Seq::<char>::empty());
            assert(joined(all, seq![sep]) =~= s);
            assert(!Seq::<char>::empty().contains(sep));
        } else {
            assert(all.drop_last() =~= rest.drop_last());
            if rest.len() == 1 {
                assert(joined(all, seq![sep]) =~= s);
            } else {
                assert(joined(all, seq![sep]) =~= joined(rest, seq![sep]).push(s.last()));
                assert(joined(all, seq![sep]) =~= s);
            }
            let last = rest.last().push(s.last());
            if last.contains(sep) {
                let k = last.index_of(sep);
                assert(k < rest.last().len());
                assert(rest.last()[k] == sep);
                assert(rest[rest.len() - 1].contains(sep));
            }
        }
        assert forall|i: int| 0 <= i < all.len() implies !(#[trigger] all[i]).contains(sep) by {
            if i < all.len() - 1 {
                assert(all[i] == rest[i]);
            }
        }
    } else {
        assert(split(s, sep) =~= seq![s]);
    }
}

/// A trimmed text has no white space at its ends, and only white space was taken off.
pub proof fn trimming_takes_white_space(s: Seq<char>)
    ensures
        trimmed(s).len() > 0 ==> !is_white(trimmed(s)[0]) && !is_white(trimmed(s).last()),
        trimmed(s).len() == 0 <==> forall|i: int| 0 <= i < s.len() ==> is_white(#[trigger] s[i]),
        exists|a: int, b: int|
            0 <= a <= b <= s.len() && #[trigger] s.subrange(a, b) == trimmed(s) && (forall|i: int|
                0 <= i < a || b <= i < s.len() ==> is_white(#[trigger] s[i])),
{
    let t = trim_start(s);
    trim_start_takes(s);
    let a = s.len() - t.len();
    trim_end_takes(t);
    let b = a + trim_end(t).len();
    assert(s.subrange(a, b) =~= trimmed(s)) by {
        assert(s.skip(a) =~= t);
        assert(t.take(trim_end(t).len() as int) =~= trim_end(t));
    }
    assert forall|i: int| 0 <= i < a || b <= i < s.len() implies is_white(#[trigger] s[i]) by {
        if i >= b {
            assert(t[i - a] == s[i]);
        }
    }
    if trimmed(s).len() > 0 {
        assert(trimmed(s)[0] == t[0]);
        assert(s[a] == trimmed(s)[0]);
    }
}

proof fn trim_start_takes(s: Seq<char>)
    ensures
        trim_start(s).len() <= s.len(),
        s.skip(s.len() - trim_start(s).len()) == trim_start(s),
        forall|i: int| 0 <= i < s.len() - trim_start(s).len() ==> is_white(#[trigger] s[i]),
        trim_start(s).len() > 0 ==> !is_white(trim_start(s)[0]),
    decreases s.len(),
{
    if s.len() > 0 && is_white(s[0]) {
        let rest = s.drop_first();
        trim_start_takes(rest);
        assert(s.skip(s.len() - trim_start(s).len()) =~= rest.skip(rest.len() - trim_start(rest).len()));
        assert forall|i: int| 0 <= i < s.len() - trim_start(s).len() implies is_white(#[trigger] s[i]) by {
            if i > 0 {
                assert(rest[i - 1] == s[i]);
            }
        }
    } else {
        assert(s.skip(0) =~= s);
    }
}

proof fn trim_end_takes(s: Seq<char>)
    ensures
        trim_end(s).len() <= s.len(),
        s.take(trim_end(s).len() as int) == trim_end(s),
        forall|i: int| trim_end(s).len() <= i < s.len() ==> is_white(#[trigger] s[i]),
        trim_end(s).len() > 0 ==> !is_white(trim_end(s).last()),
    decreases s.len(),
{
    if s.len() > 0 && is_white(s.last()) {
        let rest = s.drop_last();
        trim_end_takes(rest);
        assert(s.take(trim_end(s).len() as int) =~= rest.take(trim_end(rest).len() as int));
        assert forall|i: int| trim_end(s).len() <= i < s.len() implies is_white(#[trigger] s[i]) by {
            if i < s.len() - 1 {
                assert(rest[i] == s[i]);
            }
        }
    } else {
        assert(s.take(s.len() as int) =~= s);
    }
}

/// No word is empty or holds white space, and what is not white stands in the words in order.
pub proof fn words_hold_no_white_space(s: Seq<char>)
    ensures
        forall|i: int|
            0 <= i < words(s).len() ==> (#[trigger] words(s)[i]).len() > 0 && forall|j: int|
                0 <= j < words(s)[i].len() ==> !is_white(#[trigger] words(s)[i][j]),
        s.len() > 0 && !is_white(s.last()) ==> words(s).len() > 0 && words(s).last().last() == s.last(),
        words(s).flatten() == s.filter(|c: char| !is_white(c)),
    decreases s.len(),
{
    reveal(Seq::filter);
    if s.len() > 0 {
        let front = s.drop_last();
        words_hold_no_white_space(front);
        let rest = words(front);
        let all = words(s);
        if !is_white(s.last()) {
            if s.len() == 1 || is_white(s[s.len() - 2]) {
                let one = Seq::<char>::empty().push(s.last());
                assert(all == rest.push(one));
                rest.lemma_flatten_push(one);
                assert(all.flatten() =~= rest.flatten().push(s.last()));
            } else {
                assert(front.last() == s[s.len() - 2]);
                let one = rest.last().push(s.last());
                rest.drop_last().lemma_flatten_push(one);
                rest.drop_last().lemma_flatten_push(rest.last());
                assert(rest.drop_last().push(rest.last()) =~= rest);
                assert(all.flatten() =~= rest.flatten().push(s.last()));
                assert forall|j: int| 0 <= j < one.len() implies !is_white(#[trigger] one[j]) by {
                    if j < rest.last().len() {
                        assert(one[j] == rest[rest.len() - 1][j]);
                    }
                }
            }
            assert forall|i: int| 0 <= i < all.len() implies (#[trigger] all[i]).len() > 0 && forall|j: int|
                0 <= j < all[i].len() ==> !is_white(#[trigger] all[i][j]) by {
                if i < all.len() - 1 {
                    assert(all[i] == rest[i]);
                }
            }
        }
    } else {
        assert(words(s).flatten() =~= Seq::<char>::empty());
    }
}

/// What occurs in one of two texts occurs in both together.
pub proof fn either_holds(a: Seq<char>, b: Seq<char>, pat: Seq<char>)
    requires
        occurs(a, pat) || occurs(b, pat),
    ensures
        occurs(a + b, pat),
{
    if occurs(a, pat) {
        parts_hold_what_occurs(Seq::empty(), a, b, pat);
        assert(Seq::<char>::empty() + a + b =~= a + b);
    } else {
        parts_hold_what_occurs(a, b, Seq::empty(), pat);
        assert(a + b + Seq::<char>::empty() =~= a + b);
    }
}

/// Each of several texts occurs in them joined.
pub proof fn joined_holds(parts: Seq<Seq<char>>, sep: Seq<char>, k: int)
    requires
        0 <= k < parts.len(),
    ensures
        occurs(joined(parts, sep), parts[k]),
    decreases parts.len(),
{
    if parts.len() == 1 {
        written_text_occurs(Seq::empty(), parts[0], Seq::empty());
        assert(Seq::<char>::empty() + parts[0] + Seq::<char>::empty() =~= parts[0]);
    } else if k < parts.len() - 1 {
        let front = joined(parts.drop_last(), sep);
        joined_holds(parts.drop_last(), sep, k);
        parts_hold_what_occurs(Seq::empty(), front, sep + parts.last(), parts[k]);
        assert(Seq::<char>::empty() + front + (sep + parts.last()) =~= joined(parts, sep));
    } else {
        let front = joined(parts.drop_last(), sep) + sep;
        written_text_occurs(front, parts.last(), Seq::empty());
        assert(front + parts.last() + Seq::<char>::empty() =~= joined(parts, sep));
    }
}

/// Once a character is replaced, none of it is left that the replacement does not bring.
pub proof fn replacing_leaves_none(s: Seq<char>, from: char, to: Seq<char>, c: char)
    requires
        !to.contains(c),
        c == from,
    ensures
        !replaced(s, from, to).contains(c),
    decreases s.len(),
{
    if s.len() > 0 {
        replacing_leaves_none(s.drop_last(), from, to, c);
        let front = replaced(s.drop_last(), from, to);
        let all = replaced(s, from, to);
        if all.contains(c) {
            let i = all.index_of(c);
            if i < front.len() {
                assert(front[i] == c);
            } else if s.last() == from {
                assert(to[i - front.len()] == c);
            }
        }
    }
}

/// Replacing brings in no character that the replacement does not hold.
pub proof fn replacing_adds_none(s: Seq<char>, from: char, to: Seq<char>, c: char)
    requires
        !to.contains(c),
        !s.contains(c),
    ensures
        !replaced(s, from, to).contains(c),
    decreases s.len(),
{
    if s.len() > 0 {
        assert forall|i: int| 0 <= i < s.drop_last().len() implies s.drop_last()[i] != c by {
            assert(s[i] != c);
        }
        replacing_adds_none(s.drop_last(), from, to, c);
        let front = replaced(s.drop_last(), from, to);
        let all = replaced(s, from, to);
        assert(s[s.len() - 1] != c);
        if all.contains(c) {
            let i = all.index_of(c);
            if i < front.len() {
                assert(front[i] == c);
            } else if s.last() == from {
                assert(to[i - front.len()] == c);
            }
        }
    }
}

/// Where a character does not occur, replacing it changes nothing.
pub proof fn replacing_nothing(s: Seq<char>, from: char, to: Seq<char>)
    requires
        !s.contains(from),
    ensures
        replaced(s, from, to) == s,
    decreases s.len(),
{
    if s.len() > 0 {
        assert forall|i: int| 0 <= i < s.drop_last().len() implies s.drop_last()[i] != from by {
            assert(s[i] != from);
        }
        replacing_nothing(s.drop_last(), from, to);
        assert(s[s.len() - 1] != from);
        assert(s =~= s.drop_last().push(s.last()));
    }
}

/// What ends a text occurs in it.
pub proof fn two_end(front: Seq<char>, a: Seq<char>, b: Seq<char>)
    ensures
        occurs(front + a + b, a + b),
{
    let none = Seq::<char>::empty();
    assert(front + (a + b) + none =~= front + a + b);
    written_text_occurs(front, a + b, none);
}

/// What ends a text occurs in it.
pub proof fn three_end(front: Seq<char>, a: Seq<char>, b: Seq<char>, c: Seq<char>)
    ensures
        occurs(front + a + b + c, a + b + c),
{
    let none = Seq::<char>::empty();
    assert(front + (a + b + c) + none =~= front + a + b + c);
    written_text_occurs(front, a + b + c, none);
}

/// What occurs in a text occurs in it after more was written.
pub proof fn four_more(front: Seq<char>, a: Seq<char>, b: Seq<char>, c: Seq<char>, d: Seq<char>, pat: Seq<char>)
    requires
        occurs(front, pat),
    ensures
        occurs(front + a + b + c + d, pat),
{
    either_holds(front, a, pat);
    either_holds(front + a, b, pat);
    either_holds(front + a + b, c, pat);
    either_holds(front + a + b + c, d, pat);
}

/// The number that a sequence of decimal digits stands for.
pub open spec fn worth(s: Seq<char>) -> int
    decreases s.len(),
{
    if s.len() == 0 {
        0
    } else {
        worth(s.drop_last()) * 10 + (s.last() as int - '0' as int)
    }
}

/// A number is written in decimal digits that stand for it, without leading zeros.
pub proof fn decimals_stand_for_their_number(n: nat)
    ensures
        worth(dec(n)) == n,
        dec(n).len() > 0,
        forall|i: int| 0 <= i < dec(n).len() ==> '0' <= #[trigger] dec(n)[i] <= '9',
        n > 0 ==> dec(n)[0] != '0',
    decreases n,
{
    if n < 10 {
        let s = dec(n);
        assert(s.drop_last() =~= Seq::<char>::empty());
        assert(worth(s.drop_last()) == 0);
        assert(s.last() == digit(n));
    } else {
        let front = dec(n / 10);
        let s = dec(n);
        decimals_stand_for_their_number(n / 10);
        assert(s == front.push(digit(n % 10)));
        assert(s.drop_last() =~= front);
        assert(s.last() == digit(n % 10));
        assert forall|i: int| 0 <= i < s.len() implies '0' <= #[trigger] s[i] <= '9' by {
            if i < front.len() {
                assert(s[i] == front[i]);
            }
        }
        assert(s[0] == front[0]);
    }
}

/// A number below none is written with a sign in front of what it lacks.
pub proof fn signs_stand_in_front(n: int)
    ensures
        n >= 0 ==> worth(dec_int(n)) == n,
        n < 0 ==> dec_int(n).len() > 1 && dec_int(n)[0] == '-' && worth(dec_int(n).skip(1)) == -n,
{
    if n < 0 {
        decimals_stand_for_their_number((-n) as nat);
        assert(dec_int(n).skip(1) =~= dec((-n) as nat));
    } else {
        decimals_stand_for_their_number(n as nat);
    }
}

/// Texts are ordered by the first character in which they differ, and one that goes on comes after
/// one that ends there.
pub proof fn the_first_difference_decides(a: Seq<char>, b: Seq<char>, k: int)
    requires
        0 <= k <= a.len(),
        k <= b.len(),
        a.take(k) == b.take(k),
    ensures
        k < a.len() && k < b.len() && a[k] < b[k] ==> lex_lt(a, b) && !lex_lt(b, a),
        k == a.len() && k < b.len() ==> lex_lt(a, b) && !lex_lt(b, a),
    decreases k,
{
    if k > 0 {
        assert(a.take(k)[0] == a[0] && b.take(k)[0] == b[0]);
        let x = a.drop_first();
        let y = b.drop_first();
        assert(x.take(k - 1) =~= a.take(k).drop_first());
        assert(y.take(k - 1) =~= b.take(k).drop_first());
        the_first_difference_decides(x, y, k - 1);
        if k < a.len() {
            assert(x[k - 1] == a[k]);
        }
        if k < b.len() {
            assert(y[k - 1] == b[k]);
        }
    }
}

/// What stands before a character ends at its first occurrence, and is the whole text without one.
pub proof fn texts_end_at_the_mark(s: Seq<char>, c: char)
    ensures
        !up_to(s, c).contains(c),
        s.contains(c) ==> up_to(s, c).len() < s.len() && s[up_to(s, c).len() as int] == c,
        !s.contains(c) ==> up_to(s, c) == s,
        up_to(s, c) == s.take(up_to(s, c).len() as int),
{
    position_bounds(s, c);
    let p = position_of(s, c) as int;
    if !s.contains(c) {
        assert(s.take(s.len() as int) =~= s);
    }
}

/// Taking a character off the end of a text takes off all of it there, and nothing else.
pub proof fn ends_are_stripped_bare(s: Seq<char>, c: char)
    ensures
        strip_end(s, c).len() > 0 ==> strip_end(s, c).last() != c,
        strip_end(s, c).len() <= s.len(),
        strip_end(s, c) == s.take(strip_end(s, c).len() as int),
        forall|i: int| strip_end(s, c).len() <= i < s.len() ==> #[trigger] s[i] == c,
    decreases s.len(),
{
    if s.len() > 0 && s.last() == c {
        let front = s.drop_last();
        ends_are_stripped_bare(front, c);
        let n = strip_end(s, c).len() as int;
        assert(s.take(n) =~= front.take(n));
        assert forall|i: int| n <= i < s.len() implies #[trigger] s[i] == c by {
            if i < front.len() {
                assert(front[i] == s[i]);
            }
        }
    } else {
        assert(s.take(s.len() as int) =~= s);
    }
}

/// Taking a character off the start of a text takes off all of it there, and nothing else.
pub proof fn starts_are_stripped_bare(s: Seq<char>, c: char)
    ensures
        strip_start(s, c).len() > 0 ==> strip_start(s, c)[0] != c,
        strip_start(s, c).len() <= s.len(),
        strip_start(s, c) == s.skip(s.len() - strip_start(s, c).len()),
        forall|i: int| 0 <= i < s.len() - strip_start(s, c).len() ==> #[trigger] s[i] == c,
    decreases s.len(),
{
    if s.len() > 0 && s[0] == c {
        let rest = s.drop_first();
        starts_are_stripped_bare(rest, c);
        let n = s.len() - strip_start(s, c).len();
        assert(s.skip(n) =~= rest.skip(n - 1));
        assert forall|i: int| 0 <= i < n implies #[trigger] s[i] == c by {
            if i > 0 {
                assert(rest[i - 1] == s[i]);
            }
        }
    } else {
        assert(s.skip(0) =~= s);
    }
}

/// A number is filled up to four digits, which stand for it.
#[verifier::rlimit(40)]
pub proof fn four_digits_stand_for_their_number(n: nat)
    requires
        n < 10_000,
    ensures
        four_digits(n).len() == 4,
        worth(four_digits(n)) == n,
{
    reveal_strlit("000");
    reveal_strlit("00");
    reveal_strlit("0");
    reveal_with_fuel(dec, 5);
    reveal_with_fuel(worth, 6);
    let s = four_digits(n);
    assert(s.len() == 4);
    let a = s.drop_last();
    let b = a.drop_last();
    let c = b.drop_last();
    assert(c.drop_last() =~= Seq::<char>::empty());
    assert(s[3] == digit(n % 10));
    assert(s[2] == digit(n / 10 % 10));
    assert(s[1] == digit(n / 100 % 10));
    assert(s[0] == digit(n / 1000 % 10));
    assert(worth(c) == n / 1000 % 10);
    assert(worth(b) == worth(c) * 10 + n / 100 % 10);
    assert(worth(a) == worth(b) * 10 + n / 10 % 10);
}

/// The start of a text that takes a number of bytes takes just those.
pub proof fn prefixes_take_their_bytes(s: Seq<char>, n: int, k: int)
    ensures
        byte_prefix(s, n) matches Some(p) ==> utf8_len(p) == n && p.len() <= s.len() && p == s.take(p.len() as int),
        0 <= k <= s.len() && utf8_len(s.take(k)) == n ==> byte_prefix(s, n) is Some,
        (forall|j: int| 0 <= j < s.len() ==> (#[trigger] s[j] as u32) < 0x80) && 0 <= n <= s.len() ==> byte_prefix(s, n)
            is Some,
{
    if 0 <= k <= s.len() && utf8_len(s.take(k)) == n {
        assert(is_byte_prefix(s, n, k));
    }
    if (forall|j: int| 0 <= j < s.len() ==> (#[trigger] s[j] as u32) < 0x80) && 0 <= n <= s.len() {
        ascii_takes_one_byte(s.take(n));
        assert(is_byte_prefix(s, n, n));
    }
}

/// Characters of ASCII take a byte each.
proof fn ascii_takes_one_byte(s: Seq<char>)
    requires
        forall|j: int| 0 <= j < s.len() ==> (#[trigger] s[j] as u32) < 0x80,
    ensures
        utf8_len(s) == s.len(),
    decreases s.len(),
{
    if s.len() > 0 {
        let front = s.drop_last();
        assert forall|j: int| 0 <= j < front.len() implies (#[trigger] front[j] as u32) < 0x80 by {
            assert(front[j] == s[j]);
        }
        ascii_takes_one_byte(front);
        assert((s[s.len() - 1] as u32) < 0x80);
    }
}

} // verus!
