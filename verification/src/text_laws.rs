//! What the functions on texts keep and change.
use crate::text::{
    all_digits, digit_value, digits_value, is_space, lowered, parts, replaced, trim_left, trim_right, trim_where, trimmed, unsigned_value,
};
use vstd::prelude::*;

verus! {

broadcast use vstd::seq::group_seq_axioms;

/// What is cut off at the start.
pub proof fn lemma_left(s: Seq<char>, p: spec_fn(char) -> bool) -> (a: int)
    ensures
        0 <= a <= s.len(),
        trim_left(s, p) == s.skip(a),
        forall|i: int| 0 <= i < a ==> p(#[trigger] s[i]),
        a < s.len() ==> !p(s[a]),
    decreases s.len(),
{
    if s.len() > 0 && p(s[0]) {
        let t = s.drop_first();
        let a = lemma_left(t, p);
        assert(t.skip(a) =~= s.skip(a + 1));
        assert forall|i: int| 0 <= i < a + 1 implies p(#[trigger] s[i]) by {
            if i > 0 {
                assert(t[i - 1] == s[i]);
            }
        }
        if a < t.len() {
            assert(t[a] == s[a + 1]);
        }
        a + 1
    } else {
        assert(s.skip(0) =~= s);
        0
    }
}

/// What is cut off at the end.
pub proof fn lemma_right(s: Seq<char>, p: spec_fn(char) -> bool) -> (b: int)
    ensures
        0 <= b <= s.len(),
        trim_right(s, p) == s.take(b),
        forall|i: int| b <= i < s.len() ==> p(#[trigger] s[i]),
        b > 0 ==> !p(s[b - 1]),
    decreases s.len(),
{
    if s.len() > 0 && p(s.last()) {
        let t = s.drop_last();
        let b = lemma_right(t, p);
        assert(t.take(b) =~= s.take(b));
        assert forall|i: int| b <= i < s.len() implies p(#[trigger] s[i]) by {
            if i < t.len() {
                assert(t[i] == s[i]);
            }
        }
        if b > 0 {
            assert(t[b - 1] == s[b - 1]);
        }
        b
    } else {
        assert(s.take(s.len() as int) =~= s);
        s.len() as int
    }
}

/// Trimming takes away what satisfies `p` at both ends, and nothing else: what is left is a
/// stretch of the text that is empty or begins and ends with characters that do not, and
/// all that was before and after it does.
pub proof fn law_trim(s: Seq<char>, p: spec_fn(char) -> bool) -> (ends: (int, int))
    ensures
        0 <= ends.0 <= ends.1 <= s.len(),
        trim_where(s, p) == s.subrange(ends.0, ends.1),
        forall|i: int| 0 <= i < ends.0 || ends.1 <= i < s.len() ==> p(#[trigger] s[i]),
        ends.0 < ends.1 ==> !p(s[ends.0]) && !p(s[ends.1 - 1]),
{
    let a = lemma_left(s, p);
    let l = trim_left(s, p);
    let b = lemma_right(l, p);
    assert(trim_where(s, p) =~= s.subrange(a, a + b));
    assert forall|i: int| 0 <= i < a || a + b <= i < s.len() implies p(#[trigger] s[i]) by {
        if i >= a {
            assert(l[i - a] == s[i]);
        }
    }
    if b > 0 {
        assert(l[0] == s[a]);
        assert(l[b - 1] == s[a + b - 1]);
    }
    (a, a + b)
}

/// A text that neither begins nor ends with such a character is not cut.
pub proof fn law_trim_nothing(s: Seq<char>, p: spec_fn(char) -> bool)
    requires
        s.len() > 0 ==> !p(s[0]) && !p(s.last()),
    ensures
        trim_where(s, p) == s,
{
}

/// To trim twice is to trim once.
pub proof fn law_trim_again(s: Seq<char>)
    ensures
        trimmed(trimmed(s)) == trimmed(s),
{
    let p = |c: char| is_space(c);
    let ends = law_trim(s, p);
    let t = trimmed(s);
    assert(t == trim_where(s, p));
    if t.len() > 0 {
        assert(t[0] == s[ends.0] && t.last() == s[ends.1 - 1]);
    }
    law_trim_nothing(t, p);
}

/// Replacing a character changes each of them and no other.
pub proof fn law_replaced(s: Seq<char>, from: char, to: char, i: int)
    requires
        0 <= i < s.len(),
    ensures
        replaced(s, from, to).len() == s.len(),
        s[i] == from ==> replaced(s, from, to)[i] == to,
        s[i] != from ==> replaced(s, from, to)[i] == s[i],
{
}

/// A text in lower case has no upper-case letter left; each became the letter 32 places on,
/// and every other character stayed.
pub proof fn law_lowered(s: Seq<char>, i: int)
    requires
        0 <= i < s.len(),
    ensures
        lowered(s).len() == s.len(),
        !('A' <= lowered(s)[i] <= 'Z'),
        'A' <= s[i] <= 'Z' ==> lowered(s)[i] as u32 == s[i] as u32 + 32,
        !('A' <= s[i] <= 'Z') ==> lowered(s)[i] == s[i],
{
}

/// The parts with the separator between them.
pub open spec fn rejoined(ps: Seq<Seq<char>>, c: char) -> Seq<char>
    decreases ps.len(),
{
    if ps.len() == 0 {
        Seq::empty()
    } else if ps.len() == 1 {
        ps[0]
    } else {
        rejoined(ps.drop_last(), c).push(c) + ps.last()
    }
}

/// Splitting loses nothing: the parts with the separator between them are the text, and none
/// of them holds the separator.
pub proof fn law_parts(s: Seq<char>, c: char)
    ensures
        parts(s, c).len() > 0,
        rejoined(parts(s, c), c) == s,
        forall|i: int, j: int| 0 <= i < parts(s, c).len() && 0 <= j < parts(s, c)[i].len() ==> #[trigger] parts(s, c)[i][j] != c,
    decreases s.len(),
{
    if s.len() == 0 {
        assert(parts(s, c)[0] =~= s);
    } else {
        let p = s.drop_last();
        law_parts(p, c);
        let before = parts(p, c);
        let now = parts(s, c);
        if s.last() == c {
            assert(now.drop_last() =~= before);
            assert(rejoined(now, c) =~= s);
        } else {
            let tail = before.last().push(s.last());
            assert(now.drop_last() =~= before.drop_last());
            assert(now.last() == tail);
            if before.len() == 1 {
                assert(before[0] == before.last());
                assert(rejoined(now, c) =~= s);
            } else {
                let head = rejoined(before.drop_last(), c).push(c);
                assert(rejoined(before, c) == head + before.last());
                assert(now.len() == before.len());
                assert(rejoined(now, c) == head + tail);
                assert(head + tail =~= (head + before.last()).push(s.last()));
                assert(p.push(s.last()) =~= s);
            }
            assert forall|i: int, j: int| 0 <= i < now.len() && 0 <= j < now[i].len() implies #[trigger] now[i][j] != c by {
                if i < before.len() - 1 {
                    assert(now[i] == before[i]);
                } else if j < before.last().len() {
                    assert(now[i][j] == before[before.len() - 1][j]);
                }
            }
        }
    }
}

/// A number is read digit by digit: one more digit makes it so many times as large and adds
/// its value. A sign other than a plus, an empty text and a character that is no digit make
/// no number.
pub proof fn law_unsigned(s: Seq<char>, c: char, radix: nat, max: nat)
    requires
        s.len() > 0,
        s[0] != '+',
        2 <= radix <= 16,
    ensures
        unsigned_value(seq!['+'] + s, radix, max) == unsigned_value(s, radix, max),
        digit_value(c, radix) is None ==> unsigned_value(s.push(c), radix, max) is None,
        match (digit_value(c, radix), unsigned_value(s, radix, max)) {
            (Some(d), Some(n)) => if n * radix + d <= max {
                unsigned_value(s.push(c), radix, max) == Some(n * radix + d)
            } else {
                unsigned_value(s.push(c), radix, max) is None
            },
            _ => true,
        },
        unsigned_value(Seq::empty(), radix, max) is None,
{
    let t = s.push(c);
    assert((seq!['+'] + s).drop_first() =~= s);
    assert(t.drop_last() =~= s);
    assert(t[0] == s[0]);
    if digit_value(c, radix) is None {
        assert(t[s.len() as int] == c);
        assert(!all_digits(t, radix));
    }
    if digit_value(c, radix) is Some && unsigned_value(s, radix, max) is Some {
        assert forall|i: int| 0 <= i < t.len() implies digit_value(#[trigger] t[i], radix) is Some by {
            if i < s.len() {
                assert(t[i] == s[i]);
            }
        }
        assert(digits_value(t, radix) == digits_value(s, radix) * radix + digit_value(c, radix)->0);
    }
}

/// The digits have their values, in either case, below the radix and no others.
pub proof fn law_digits(radix: nat)
    requires
        radix <= 16,
    ensures
        forall|c: char| '0' <= c <= '9' && c as nat - 48 < radix ==> #[trigger] digit_value(c, radix) == Some((c as nat - 48) as nat),
        radix == 16 ==> digit_value('a', radix) == Some(10nat) && digit_value('F', radix) == Some(15nat) && digit_value('f', radix) == Some(
            15nat,
        ) && digit_value('A', radix) == Some(10nat),
        forall|c: char| #[trigger] digit_value(c, radix) matches Some(d) ==> d < radix,
        radix <= 10 ==> forall|c: char| #[trigger] digit_value(c, radix) is Some ==> '0' <= c <= '9',
{
}

} // verus!
