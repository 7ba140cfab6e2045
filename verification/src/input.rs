//! What the user types.

use crate::text;
use vstd::prelude::*;

verus! {

/// Whether `c` is white space: whether it has the Unicode property `White_Space`.
pub open spec fn whitespace(c: char) -> bool {
    let n = c as int;
    ||| 0x9 <= n <= 0xd
    ||| n == 0x20 || n == 0x85 || n == 0xa0 || n == 0x1680
    ||| 0x2000 <= n <= 0x200a
    ||| n == 0x2028 || n == 0x2029 || n == 0x202f || n == 0x205f || n == 0x3000
}

/// Whether `c` is white space.
fn is_whitespace(c: char) -> (r: bool)
    ensures
        r == whitespace(c),
{
    let n: u32 = c as u32;
    (0x9 <= n && n <= 0xd) || n == 0x20 || n == 0x85 || n == 0xa0 || n == 0x1680 || (0x2000 <= n
        && n <= 0x200a) || n == 0x2028 || n == 0x2029 || n == 0x202f || n == 0x205f || n == 0x3000
}

/// How much white space stands at the start of `s`.
pub open spec fn leading(s: Seq<char>) -> nat
    decreases s.len(),
{
    if s.len() > 0 && whitespace(s[0]) {
        1 + leading(s.drop_first())
    } else {
        0
    }
}

/// What is left of `s` without the white space at its start and at its end.
pub open spec fn trimmed(s: Seq<char>) -> Seq<char> {
    let from = leading(s) as int;
    let to = s.len() - leading(s.reverse());
    if from <= to {
        s.subrange(from, to)
    } else {
        Seq::empty()
    }
}

proof fn lemma_leading(s: Seq<char>)
    ensures
        leading(s) <= s.len(),
        forall|i: int| 0 <= i < leading(s) ==> whitespace(#[trigger] s[i]),
        leading(s) < s.len() ==> !whitespace(s[leading(s) as int]),
    decreases s.len(),
{
    if s.len() > 0 && whitespace(s[0]) {
        let rest = s.drop_first();
        lemma_leading(rest);
        assert forall|i: int| 0 <= i < leading(s) implies whitespace(#[trigger] s[i]) by {
            if i > 0 {
                assert(whitespace(rest[i - 1]));
            }
        }
    }
}

/// Takes the white space off both ends of `s`.
pub fn trim<'a>(s: &'a str) -> (r: &'a str)
    ensures
        r@ == trimmed(s@),
{
    let chars = text::characters(s);
    let n: usize = chars.len();
    let mut from: usize = 0;
    proof {
        assert(s@.skip(0) =~= s@);
    }
    while from < n && is_whitespace(chars[from])
        invariant
            chars@ == s@,
            n == s@.len(),
            from <= n,
            leading(s@) == from + leading(s@.skip(from as int)),
        decreases n - from,
    {
        proof {
            assert(s@.skip(from as int).drop_first() =~= s@.skip(from + 1));
        }
        from += 1;
    }
    let ghost back = s@.reverse();
    let mut to: usize = n;
    proof {
        assert(back.skip(0) =~= back);
    }
    while to > 0 && is_whitespace(chars[to - 1])
        invariant
            chars@ == s@,
            n == s@.len(),
            to <= n,
            back == s@.reverse(),
            leading(back) == (n - to) + leading(back.skip(n - to)),
        decreases to,
    {
        proof {
            assert(back.skip(n - to).drop_first() =~= back.skip(n - to + 1));
        }
        to -= 1;
    }
    if from <= to {
        s.substring_char(from, to)
    } else {
        proof {
            assert(s@.subrange(0, 0) =~= Seq::<char>::empty());
        }
        s.substring_char(0, 0)
    }
}

/// What is left neither starts nor ends with white space.
pub proof fn law_trimmed_ends(s: Seq<char>)
    ensures
        trimmed(s).len() > 0 ==> !whitespace(trimmed(s)[0]) && !whitespace(trimmed(s).last()),
{
    lemma_leading(s);
    lemma_leading(s.reverse());
}

/// Nothing is left of white space, and of nothing else.
pub proof fn law_trimmed_empty(s: Seq<char>)
    ensures
        trimmed(s).len() == 0 <==> forall|i: int|
            0 <= i < s.len() ==> whitespace(#[trigger] s[i]),
{
    lemma_leading(s);
    lemma_leading(s.reverse());
    let from = leading(s) as int;
    let to = s.len() - leading(s.reverse());
    if exists|i: int| 0 <= i < s.len() && !whitespace(#[trigger] s[i]) {
        let i = choose|i: int| 0 <= i < s.len() && !whitespace(#[trigger] s[i]);
        assert(from <= i);
        if to <= i {
            assert(s.reverse()[s.len() - 1 - i] == s[i]);
        }
    }
}

/// What is left is a stretch of the text, and white space stood on both sides of it.
pub proof fn law_trimmed_is_a_stretch(s: Seq<char>)
    ensures
        exists|from: int, to: int|
            {
                &&& 0 <= from <= to <= s.len()
                &&& trimmed(s) == #[trigger] s.subrange(from, to)
                &&& forall|i: int|
                    0 <= i < from || to <= i < s.len() ==> whitespace(#[trigger] s[i])
            },
{
    lemma_leading(s);
    lemma_leading(s.reverse());
    let from = leading(s) as int;
    let to = s.len() - leading(s.reverse());
    assert forall|i: int| to <= i < s.len() implies whitespace(#[trigger] s[i]) by {
        assert(s.reverse()[s.len() - 1 - i] == s[i]);
        assert(whitespace(s.reverse()[s.len() - 1 - i]));
    }
    if from <= to {
        assert(trimmed(s) == s.subrange(from, to));
    } else {
        assert(trimmed(s) =~= s.subrange(to, to));
    }
}

/// The characters that are cut off are the twenty-five that Unicode calls white space.
pub proof fn law_whitespace(c: char)
    ensures
        whitespace(c) <==> seq![
            '\t', '\n', '\u{b}', '\u{c}', '\r', ' ', '\u{85}', '\u{a0}', '\u{1680}', '\u{2000}',
            '\u{2001}', '\u{2002}', '\u{2003}', '\u{2004}', '\u{2005}', '\u{2006}', '\u{2007}',
            '\u{2008}', '\u{2009}', '\u{200a}', '\u{2028}', '\u{2029}', '\u{202f}', '\u{205f}',
            '\u{3000}',
        ].contains(c),
{
    let all = seq![
        '\t', '\n', '\u{b}', '\u{c}', '\r', ' ', '\u{85}', '\u{a0}', '\u{1680}', '\u{2000}',
        '\u{2001}', '\u{2002}', '\u{2003}', '\u{2004}', '\u{2005}', '\u{2006}', '\u{2007}',
        '\u{2008}', '\u{2009}', '\u{200a}', '\u{2028}', '\u{2029}', '\u{202f}', '\u{205f}',
        '\u{3000}',
    ];
    let n = c as int;
    if whitespace(c) {
        let i: int = if n <= 0xd {
            n - 0x9
        } else if n == 0x20 {
            5
        } else if n == 0x85 {
            6
        } else if n == 0xa0 {
            7
        } else if n == 0x1680 {
            8
        } else if n <= 0x200a {
            n - 0x2000 + 9
        } else if n == 0x2028 {
            20
        } else if n == 0x2029 {
            21
        } else if n == 0x202f {
            22
        } else if n == 0x205f {
            23
        } else {
            24
        };
        assert(all[i] == c);
    }
}

} // verus!
