//! Where two versions of a package part.

use crate::style::{Colors, ColorsView};
use crate::text;
use vstd::prelude::*;

verus! {

/// What `char::is_alphanumeric` says of `c`.
pub uninterp spec fn alphanumeric(c: char) -> bool;

/// Calls `char::is_alphanumeric`, which says whether Unicode counts `c` as a letter
/// or as a number. The answer goes by the tables that std carries; it is given the
/// name `alphanumeric`, and nothing is claimed of it but that it depends on `c`
/// alone.
#[verifier::external_body]
fn is_alphanumeric(c: char) -> (r: bool)
    ensures
        r == alphanumeric(c),
{
    c.is_alphanumeric()
}

/// The number of characters that `a` and `b` have in common at their start.
pub open spec fn common_prefix(a: Seq<char>, b: Seq<char>) -> nat
    decreases a.len(),
{
    if a.len() == 0 || b.len() == 0 || a[0] != b[0] {
        0
    } else {
        1 + common_prefix(a.drop_first(), b.drop_first())
    }
}

/// One past the last of the first `n` characters that is not alphanumeric; 0 when
/// all of them are.
pub open spec fn last_break(alnum: Seq<bool>, n: nat) -> nat
    decreases n,
{
    if n == 0 {
        0
    } else if !alnum[n - 1] {
        n
    } else {
        last_break(alnum, (n - 1) as nat)
    }
}

/// The number of characters that `old` and `new` have in common, counted up to the
/// last break between components.
pub open spec fn common_components(
    old: Seq<char>,
    new: Seq<char>,
    alnum: Seq<bool>,
) -> nat {
    last_break(alnum, common_prefix(old, new))
}

/// Two versions, each with its own part painted.
pub open spec fn diff(
    color: ColorsView,
    old: Seq<char>,
    new: Seq<char>,
    alnum: Seq<bool>,
) -> (Seq<char>, Seq<char>) {
    let common = common_components(old, new, alnum) as int;
    (
        old.take(common) + color.old_version.painted(old.skip(common)),
        new.take(common) + color.new_version.painted(new.skip(common)),
    )
}

/// For each character of `s`, whether it is alphanumeric.
pub open spec fn classes(s: Seq<char>) -> Seq<bool> {
    s.map_values(|c: char| alphanumeric(c))
}

/// `common_prefix` is the length of the longest start that the two texts share.
pub proof fn lemma_common_prefix(a: Seq<char>, b: Seq<char>)
    ensures
        common_prefix(a, b) <= a.len(),
        common_prefix(a, b) <= b.len(),
        a.take(common_prefix(a, b) as int) == b.take(common_prefix(a, b) as int),
        forall|n: int|
            0 <= n <= a.len() && n <= b.len() && #[trigger] a.take(n) == b.take(n) ==> n
                <= common_prefix(a, b),
    decreases a.len(),
{
    if a.len() > 0 && b.len() > 0 && a[0] == b[0] {
        let x = a.drop_first();
        let y = b.drop_first();
        lemma_common_prefix(x, y);
        let n = common_prefix(a, b) as int;
        assert(a.take(n) =~= seq![a[0]] + x.take(n - 1));
        assert(b.take(n) =~= seq![b[0]] + y.take(n - 1));
        assert forall|m: int|
            0 <= m <= a.len() && m <= b.len() && #[trigger] a.take(m) == b.take(m) implies m
            <= n by {
            if m > 0 {
                assert(x.take(m - 1) =~= a.take(m).drop_first());
                assert(y.take(m - 1) =~= b.take(m).drop_first());
            }
        }
    } else {
        assert(a.take(0) =~= b.take(0));
        assert forall|m: int|
            0 <= m <= a.len() && m <= b.len() && #[trigger] a.take(m) == b.take(m) implies m
            <= 0 by {
            if m > 0 {
                assert(a.take(m)[0] == a[0]);
                assert(b.take(m)[0] == b[0]);
            }
        }
    }
}

/// `last_break` is the greatest place, no further than `n`, that is the start of the
/// text or stands behind a character that is not alphanumeric.
pub proof fn lemma_last_break(alnum: Seq<bool>, n: nat)
    requires
        n <= alnum.len(),
    ensures
        last_break(alnum, n) <= n,
        last_break(alnum, n) == 0 || !alnum[last_break(alnum, n) - 1],
        forall|i: int| last_break(alnum, n) <= i < n ==> #[trigger] alnum[i],
    decreases n,
{
    if n > 0 && alnum[n - 1] {
        lemma_last_break(alnum, (n - 1) as nat);
    }
}

/// Paints what differs between the versions `old` and `new`, from the last break
/// between components that they share. The caller says for each character of `old`
/// whether it is alphanumeric; a break stands behind each one that is not.
pub fn diff_at_breaks(color: &Colors, old: &str, new: &str, alnum: &Vec<bool>) -> (r: (
    String,
    String,
))
    requires
        alnum@.len() == old@.len(),
    ensures
        r.0@ == diff(color@, old@, new@, alnum@).0,
        r.1@ == diff(color@, old@, new@, alnum@).1,
{
    let old_chars = text::characters(old);
    let new_chars = text::characters(new);
    let mut split: usize = 0;
    let mut i: usize = 0;
    proof {
        assert(old@.skip(0) =~= old@);
        assert(new@.skip(0) =~= new@);
    }
    while i < old_chars.len() && i < new_chars.len() && old_chars[i] == new_chars[i]
        invariant
            old_chars@ == old@,
            new_chars@ == new@,
            alnum@.len() == old@.len(),
            i <= old@.len(),
            i <= new@.len(),
            split <= i,
            common_prefix(old@, new@) == i + common_prefix(
                old@.skip(i as int),
                new@.skip(i as int),
            ),
            split == last_break(alnum@, i as nat),
        decreases old@.len() - i,
    {
        proof {
            assert(old@.skip(i as int).drop_first() =~= old@.skip(i + 1));
            assert(new@.skip(i as int).drop_first() =~= new@.skip(i + 1));
        }
        if !alnum[i] {
            split = i + 1;
        }
        i += 1;
    }
    let mut shown_old = old.substring_char(0, split).to_owned();
    let mut shown_new = new.substring_char(0, split).to_owned();
    shown_old.append(&color.old_version.paint(old.substring_char(split, old_chars.len())));
    shown_new.append(&color.new_version.paint(new.substring_char(split, new_chars.len())));
    (shown_old, shown_new)
}

/// Paints what differs between the versions `old` and `new`, from the last break
/// between components that they share.
pub fn get_version_diff(color: &Colors, old: &str, new: &str) -> (r: (String, String))
    ensures
        r.0@ == diff(color@, old@, new@, classes(old@)).0,
        r.1@ == diff(color@, old@, new@, classes(old@)).1,
{
    let chars = text::characters(old);
    let mut alnum: Vec<bool> = Vec::new();
    let mut i: usize = 0;
    while i < chars.len()
        invariant
            chars@ == old@,
            i <= chars@.len(),
            alnum@ =~= classes(old@).take(i as int),
        decreases chars@.len() - i,
    {
        alnum.push(is_alphanumeric(chars[i]));
        i += 1;
    }
    proof {
        assert(classes(old@).take(old@.len() as int) =~= classes(old@));
    }
    diff_at_breaks(color, old, new, &alnum)
}

/// The parts shown are the versions themselves: without colour, both come back as
/// they are.
pub proof fn law_diff_keeps_versions(
    color: ColorsView,
    old: Seq<char>,
    new: Seq<char>,
    alnum: Seq<bool>,
)
    requires
        alnum.len() == old.len(),
        color.old_version.plain(),
        color.new_version.plain(),
    ensures
        diff(color, old, new, alnum) == (old, new),
{
    lemma_common_prefix(old, new);
    lemma_last_break(alnum, common_prefix(old, new));
    let common = common_components(old, new, alnum) as int;
    assert(old.take(common) + color.old_version.painted(old.skip(common)) =~= old);
    assert(new.take(common) + color.new_version.painted(new.skip(common)) =~= new);
}

/// What is not painted is a start that both versions share, and it is the longest
/// such start that is empty or ends at a break between components.
pub proof fn law_diff_starts_at_last_shared_break(
    old: Seq<char>,
    new: Seq<char>,
    alnum: Seq<bool>,
)
    requires
        alnum.len() == old.len(),
    ensures
        ({
            let common = common_components(old, new, alnum) as int;
            &&& common <= old.len()
            &&& common <= new.len()
            &&& old.take(common) == new.take(common)
            &&& common == 0 || !alnum[common - 1]
            &&& forall|n: int|
                common < n <= old.len() && n <= new.len() && #[trigger] old.take(n) == new.take(n)
                    ==> alnum[n - 1]
        }),
{
    lemma_common_prefix(old, new);
    lemma_last_break(alnum, common_prefix(old, new));
    let prefix = common_prefix(old, new) as int;
    let common = common_components(old, new, alnum) as int;
    assert(old.take(common) =~= old.take(prefix).take(common));
    assert(new.take(common) =~= new.take(prefix).take(common));
}

/// A version that does not change is painted from its last break on.
pub proof fn law_diff_of_equal_versions(version: Seq<char>, alnum: Seq<bool>)
    requires
        alnum.len() == version.len(),
    ensures
        common_components(version, version, alnum) == last_break(
            alnum,
            version.len(),
        ),
{
    lemma_common_prefix(version, version);
    assert(version.take(version.len() as int) == version.take(version.len() as int));
}

/// Each character is classed by itself.
pub proof fn law_classes(s: Seq<char>)
    ensures
        classes(s).len() == s.len(),
        forall|i: int| 0 <= i < s.len() ==> #[trigger] classes(s)[i] == alphanumeric(s[i]),
{
}

/// Each version is shown in two parts: what it shares with the other, as it is, and
/// the rest, between the prefix and the suffix of its own style.
pub proof fn law_diff_paints_the_rest(
    color: ColorsView,
    old: Seq<char>,
    new: Seq<char>,
    alnum: Seq<bool>,
    k: int,
)
    requires
        alnum.len() == old.len(),
        0 <= k <= old.len(),
        k <= new.len(),
        old.take(k) == new.take(k),
        k == 0 || !alnum[k - 1],
        forall|n: int|
            k < n <= old.len() && n <= new.len() && #[trigger] old.take(n) == new.take(n)
                ==> alnum[n - 1],
    ensures
        diff(color, old, new, alnum).0 == old.take(k) + color.old_version.prefix + old.skip(k)
            + color.old_version.suffix,
        diff(color, old, new, alnum).1 == new.take(k) + color.new_version.prefix + new.skip(k)
            + color.new_version.suffix,
{
    law_diff_starts_at_last_shared_break(old, new, alnum);
    let common = common_components(old, new, alnum) as int;
    assert(old.take(common) == new.take(common));
    assert(old.take(k) == new.take(k));
    assert(common == k);
    assert(diff(color, old, new, alnum).0 =~= old.take(k) + color.old_version.prefix + old.skip(k)
        + color.old_version.suffix);
    assert(diff(color, old, new, alnum).1 =~= new.take(k) + color.new_version.prefix + new.skip(k)
        + color.new_version.suffix);
}

} // verus!
