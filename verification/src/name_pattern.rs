//! Name patterns: `*` stands for any run of characters, `?` for any one.

use vstd::prelude::*;
#[allow(unused_imports)]
use vstd::string::*;
use crate::text::chars;

verus! {

/// The text is one that the pattern describes.
pub open spec fn describes(pattern: Seq<char>, text: Seq<char>) -> bool
    decreases pattern.len() + text.len(),
{
    if pattern.len() == 0 {
        text.len() == 0
    } else if pattern[0] == '*' {
        describes(pattern.skip(1), text) || text.len() > 0 && describes(pattern, text.skip(1))
    } else {
        text.len() > 0 && (pattern[0] == '?' || pattern[0] == text[0]) && describes(pattern.skip(1), text.skip(1))
    }
}

/// Whether the text is one that the pattern describes.
pub fn name_matches(pattern: &str, text: &str) -> (r: bool)
    ensures
        r == describes(pattern@, text@),
{
    let p = chars(pattern);
    let t = chars(text);
    let n: usize = t.len();
    // What the rest of the pattern, from position `i` on, says of each rest of the text:
    // `row[j]` of the one from `j` on, `end` of the empty one.
    let mut row: Vec<bool> = Vec::new();
    let mut end = true;
    let mut i: usize = p.len();
    while row.len() < n
        invariant
            row@.len() <= n == t@.len(),
            i == p@.len(),
            forall|k: int| 0 <= k < row@.len() ==> #[trigger] row@[k] == describes(p@.skip(i as int), t@.skip(k)),
        decreases n - row@.len(),
    {
        row.push(false);
    }
    while i > 0
        invariant
            i <= p@.len(),
            row@.len() == n == t@.len(),
            end == describes(p@.skip(i as int), t@.skip(n as int)),
            forall|k: int| 0 <= k < n ==> #[trigger] row@[k] == describes(p@.skip(i as int), t@.skip(k)),
        decreases i,
    {
        let c: char = p[i - 1];
        let ghost rest = p@.skip(i as int);
        let ghost longer = p@.skip(i as int - 1);
        proof {
            assert(longer.skip(1) =~= rest);
            assert(longer[0] == c);
        }
        let mut below = end;
        end = c == '*' && end;
        let mut beside = end;
        let mut j: usize = n;
        while j > 0
            invariant
                j <= n,
                row@.len() == n == t@.len(),
                longer.len() > 0,
                longer[0] == c,
                longer.skip(1) == rest,
                below == describes(rest, t@.skip(j as int)),
                beside == describes(longer, t@.skip(j as int)),
                forall|k: int| 0 <= k < j ==> #[trigger] row@[k] == describes(rest, t@.skip(k)),
                forall|k: int| j <= k < n ==> #[trigger] row@[k] == describes(longer, t@.skip(k)),
            decreases j,
        {
            let k: usize = j - 1;
            let here: bool = row[k];
            proof {
                assert(t@.skip(k as int).skip(1) =~= t@.skip(j as int));
                assert(t@.skip(k as int)[0] == t@[k as int]);
            }
            let now: bool = if c == '*' {
                here || beside
            } else {
                (c == '?' || c == t[k]) && below
            };
            row.set(k, now);
            below = here;
            beside = now;
            j = k;
        }
        i = i - 1;
    }
    proof {
        assert(p@.skip(0) =~= p@);
        assert(t@.skip(0) =~= t@);
    }
    if n == 0 {
        end
    } else {
        row[0]
    }
}

/// A pattern of plain characters describes itself alone, one that ends in a star whatever
/// starts like it, and a lone star everything.
pub proof fn stars_stand_for_anything(plain: Seq<char>, text: Seq<char>)
    requires
        !plain.contains('*'),
        !plain.contains('?'),
    ensures
        describes(plain, text) <==> plain == text,
        describes(plain.push('*'), text) <==> plain.len() <= text.len() && text.take(plain.len() as int) == plain,
    decreases plain.len() + text.len(),
{
    let p = plain.push('*');
    if plain.len() == 0 {
        assert(p.skip(1) =~= Seq::<char>::empty());
        assert(text.take(0) =~= plain);
        if text.len() == 0 {
            assert(text =~= plain);
            assert(describes(p.skip(1), text));
        } else {
            stars_stand_for_anything(plain, text.skip(1));
            assert(text.skip(1).take(0) =~= plain);
        }
    } else {
        assert(plain.contains(plain[0]));
        assert(p[0] == plain[0]);
        assert(p.skip(1) =~= plain.skip(1).push('*'));
        assert forall|c: char| plain.skip(1).contains(c) implies plain.contains(c) by {
            let i = plain.skip(1).index_of(c);
            assert(plain[i + 1] == c);
        }
        if text.len() > 0 {
            stars_stand_for_anything(plain.skip(1), text.skip(1));
            if plain[0] == text[0] {
                let n = plain.len() as int;
                if n <= text.len() {
                    assert(text.take(n).skip(1) =~= text.skip(1).take(n - 1));
                    if text.skip(1).take(n - 1) == plain.skip(1) {
                        assert(text.take(n) =~= plain) by {
                            assert forall|i: int| 0 <= i < n implies text.take(n)[i] == plain[i] by {
                                if i > 0 {
                                    assert(text.take(n).skip(1)[i - 1] == plain.skip(1)[i - 1]);
                                }
                            }
                        }
                    }
                }
                if plain.skip(1) == text.skip(1) {
                    assert(plain =~= text) by {
                        assert forall|i: int| 0 <= i < plain.len() implies plain[i] == text[i] by {
                            if i > 0 {
                                assert(plain.skip(1)[i - 1] == text.skip(1)[i - 1]);
                            }
                        }
                    }
                }
            } else {
                assert(plain.len() <= text.len() ==> text.take(plain.len() as int)[0] == text[0]);
            }
        }
    }
}

/// A pattern of plain characters behind a star describes whatever ends like it.
pub proof fn leading_stars_leave_the_end(plain: Seq<char>, text: Seq<char>)
    requires
        !plain.contains('*'),
        !plain.contains('?'),
    ensures
        describes(seq!['*'] + plain, text) <==> plain.len() <= text.len() && text.skip(text.len() - plain.len())
            == plain,
    decreases text.len(),
{
    let p = seq!['*'] + plain;
    assert(p.skip(1) =~= plain);
    stars_stand_for_anything(plain, text);
    if plain.len() == text.len() {
        assert(text.skip(0) =~= text);
    }
    if text.len() > 0 {
        let rest = text.skip(1);
        leading_stars_leave_the_end(plain, rest);
        if plain.len() < text.len() {
            assert(rest.skip(rest.len() - plain.len()) =~= text.skip(text.len() - plain.len()));
        }
    }
}

/// A question mark stands for exactly one character, whatever it is, and every question mark for
/// one more.
pub proof fn question_marks_stand_for_one(pattern: Seq<char>, text: Seq<char>)
    ensures
        describes(seq!['?'] + pattern, text) <==> text.len() > 0 && describes(pattern, text.skip(1)),
        !pattern.contains('*') && describes(pattern, text) ==> pattern.len() == text.len(),
    decreases pattern.len(),
{
    let p = seq!['?'] + pattern;
    assert(p.skip(1) =~= pattern);
    assert(p[0] == '?');
    if pattern.len() > 0 && !pattern.contains('*') && describes(pattern, text) {
        assert(pattern.contains(pattern[0]));
        let rest = pattern.skip(1);
        assert forall|i: int| 0 <= i < rest.len() implies rest[i] != '*' by {
            assert(rest[i] == pattern[i + 1]);
        }
        question_marks_stand_for_one(rest, text.skip(1));
    }
}

} // verus!
