//! Upgrades from the sync repositories.

use crate::package::{Package, PackageView};
use crate::seqs;
use crate::text;
use vstd::prelude::*;

verus! {

/// Where `db` first stands in `dbs`; past the end when it does not.
pub open spec fn position(dbs: Seq<Seq<char>>, db: Seq<char>) -> nat
    decreases dbs.len(),
{
    if dbs.len() == 0 || dbs[0] == db {
        0
    } else {
        1 + position(dbs.drop_first(), db)
    }
}

/// Whether the package `a` is listed before `b`: by the place of its repository in
/// `dbs`, then by name.
pub open spec fn package_lt(
    dbs: Seq<Seq<char>>,
    a: PackageView,
    b: PackageView,
) -> bool {
    position(dbs, a.db) < position(dbs, b.db) || (position(dbs, a.db) == position(dbs, b.db)
        && text::text_lt(a.name, b.name))
}

/// Whether no package stands before one that it should follow.
pub open spec fn in_order(dbs: Seq<Seq<char>>, s: Seq<PackageView>) -> bool {
    forall|i: int, j: int| 0 <= i < j < s.len() ==> !#[trigger] package_lt(dbs, s[j], s[i])
}

/// The packages called `name` from the repository `db`, in the order given.
pub open spec fn named(
    s: Seq<PackageView>,
    db: Seq<char>,
    name: Seq<char>,
) -> Seq<PackageView> {
    s.filter(|p: PackageView| p.db == db && p.name == name)
}

/// Whether `sorted` lists, of the packages in `all`, those from the repositories in
/// `dbs`, in order, equal ones as they stood.
pub open spec fn lists_upgrades(
    dbs: Seq<Seq<char>>,
    all: Seq<PackageView>,
    sorted: Seq<PackageView>,
) -> bool {
    &&& in_order(dbs, sorted)
    &&& forall|db: Seq<char>, name: Seq<char>| #[trigger]
        named(sorted, db, name) == if dbs.contains(db) {
            named(all, db, name)
        } else {
            Seq::empty()
        }
}

proof fn lemma_position(dbs: Seq<Seq<char>>, db: Seq<char>)
    ensures
        position(dbs, db) <= dbs.len(),
        position(dbs, db) < dbs.len() <==> dbs.contains(db),
        position(dbs, db) < dbs.len() ==> dbs[position(dbs, db) as int] == db,
        forall|j: int| 0 <= j < position(dbs, db) ==> dbs[j] != db,
    decreases dbs.len(),
{
    if dbs.len() > 0 && dbs[0] != db {
        let rest = dbs.drop_first();
        lemma_position(rest, db);
        if dbs.contains(db) {
            let i = choose|i: int| 0 <= i < dbs.len() && dbs[i] == db;
            assert(rest[i - 1] == db);
        }
        assert forall|j: int| 0 <= j < position(dbs, db) implies dbs[j] != db by {
            if j > 0 {
                assert(rest[j - 1] != db);
            }
        }
    }
}

/// Where `db` first stands in `dbs`.
fn db_position(dbs: &Vec<String>, db: &str) -> (p: usize)
    ensures
        p == position(text::views(dbs@), db@),
{
    let ghost names = text::views(dbs@);
    let mut i: usize = 0;
    proof {
        assert(names.skip(0) =~= names);
    }
    while i < dbs.len()
        invariant
            names == text::views(dbs@),
            i <= dbs@.len(),
            position(names, db@) == i + position(names.skip(i as int), db@),
        decreases dbs@.len() - i,
    {
        if text::same_text(&dbs[i], db) {
            return i;
        }
        proof {
            assert(names.skip(i as int).drop_first() =~= names.skip(i + 1));
        }
        i += 1;
    }
    i
}

/// Whether `a` is listed before `b`.
fn package_less(dbs: &Vec<String>, a: &Package, b: &Package) -> (r: bool)
    ensures
        r == package_lt(text::views(dbs@), a@, b@),
{
    let p = db_position(dbs, &a.db);
    let q = db_position(dbs, &b.db);
    p < q || (p == q && text::text_less(&a.name, &b.name))
}

/// One package `x` is taken off the end of `rest` and put into `sorted` at `k`, past
/// those listed before it.
proof fn lemma_place(
    dbs: Seq<Seq<char>>,
    rest: Seq<PackageView>,
    sorted: Seq<PackageView>,
    k: int,
    x: PackageView,
)
    requires
        in_order(dbs, sorted),
        0 <= k <= sorted.len(),
        forall|i: int| 0 <= i < k ==> package_lt(dbs, #[trigger] sorted[i], x),
        k < sorted.len() ==> !package_lt(dbs, sorted[k], x),
        dbs.contains(x.db),
        forall|i: int| 0 <= i < sorted.len() ==> dbs.contains((#[trigger] sorted[i]).db),
    ensures
        in_order(dbs, sorted.insert(k, x)),
        forall|db: Seq<char>, name: Seq<char>|
            #![trigger named(rest, db, name)]
            named(rest, db, name) + named(sorted.insert(k, x), db, name) == named(
                rest.push(x),
                db,
                name,
            ) + named(sorted, db, name),
{
    let r = sorted.insert(k, x);
    assert forall|i: int, j: int| 0 <= i < j < r.len() implies !#[trigger] package_lt(
        dbs,
        r[j],
        r[i],
    ) by {
        if i < k && j > k {
            assert(!package_lt(dbs, sorted[j - 1], sorted[i]));
        } else if i < k && j == k {
            lemma_package_lt_asymmetric(dbs, sorted[i], x);
        } else if i == k {
            if j - 1 > k {
                assert(!package_lt(dbs, sorted[j - 1], sorted[k]));
                lemma_not_before(dbs, x, sorted[k], sorted[j - 1]);
            }
        } else if i > k {
            assert(!package_lt(dbs, sorted[j - 1], sorted[i - 1]));
        } else {
            assert(!package_lt(dbs, sorted[j], sorted[i]));
        }
    }
    assert forall|db: Seq<char>, name: Seq<char>| #![trigger named(rest, db, name)]
        named(rest, db, name) + named(r, db, name) == named(rest.push(x), db, name) + named(
        sorted,
        db,
        name,
    ) by {
        let f = |p: PackageView| p.db == db && p.name == name;
        seqs::lemma_filter_insert(sorted, k, x, f);
        assert(rest.push(x) =~= rest + seq![x]);
        Seq::filter_distributes_over_add(rest, seq![x], f);
        seqs::lemma_filter_one(x, f);
        let head = sorted.take(k);
        if f(x) {
            assert forall|i: int| 0 <= i < head.len() implies !f(#[trigger] head[i]) by {
                assert(package_lt(dbs, sorted[i], x));
                text::lemma_text_lt_irreflexive(x.name);
            }
            seqs::lemma_filter_none(head, f);
        }
        assert(named(rest, db, name) + named(r, db, name) =~= named(rest.push(x), db, name)
            + named(sorted, db, name));
    }
}

proof fn lemma_package_lt_asymmetric(
    dbs: Seq<Seq<char>>,
    a: PackageView,
    b: PackageView,
)
    requires
        package_lt(dbs, a, b),
    ensures
        !package_lt(dbs, b, a),
{
    if text::text_lt(a.name, b.name) && text::text_lt(b.name, a.name) {
        text::lemma_text_lt_transitive(a.name, b.name, a.name);
        text::lemma_text_lt_irreflexive(a.name);
    }
}

/// If `b` is not listed before `a`, nor `c` before `b`, then neither is `c` before `a`.
proof fn lemma_not_before(
    dbs: Seq<Seq<char>>,
    a: PackageView,
    b: PackageView,
    c: PackageView,
)
    requires
        !package_lt(dbs, b, a),
        !package_lt(dbs, c, b),
    ensures
        !package_lt(dbs, c, a),
{
    if package_lt(dbs, c, a) {
        text::lemma_text_lt_total(b.name, c.name);
        if text::text_lt(b.name, c.name) && text::text_lt(c.name, a.name) {
            text::lemma_text_lt_transitive(b.name, c.name, a.name);
        }
    }
}

/// The packages in `all` that come from the repositories in `dbs`, by the place of
/// the repository, then by name, equal ones as they stood.
pub open spec fn listed(dbs: Seq<Seq<char>>, all: Seq<PackageView>) -> Seq<PackageView> {
    choose|sorted: Seq<PackageView>| lists_upgrades(dbs, all, sorted)
}

/// A listed package comes from one of the repositories, and is one of those given.
proof fn lemma_listed_from(
    dbs: Seq<Seq<char>>,
    all: Seq<PackageView>,
    sorted: Seq<PackageView>,
    i: int,
)
    requires
        lists_upgrades(dbs, all, sorted),
        0 <= i < sorted.len(),
    ensures
        dbs.contains(sorted[i].db),
        all.contains(sorted[i]),
{
    let p = sorted[i];
    let f = |q: PackageView| q.db == p.db && q.name == p.name;
    sorted.lemma_filter_contains(f, i);
    assert(named(sorted, p.db, p.name).contains(p));
    assert(named(all, p.db, p.name).contains(p));
    seqs::lemma_filter_from(all, f, p);
}

proof fn lemma_rest_in_order(dbs: Seq<Seq<char>>, s: Seq<PackageView>)
    requires
        in_order(dbs, s),
        s.len() > 0,
    ensures
        in_order(dbs, s.drop_first()),
{
    let r = s.drop_first();
    assert forall|i: int, j: int| 0 <= i < j < r.len() implies !#[trigger] package_lt(
        dbs,
        r[j],
        r[i],
    ) by {
        assert(!package_lt(dbs, s[j + 1], s[i + 1]));
    }
}

proof fn lemma_named_first(s: Seq<PackageView>, db: Seq<char>, name: Seq<char>)
    requires
        s.len() > 0,
    ensures
        named(s, db, name) == (if s[0].db == db && s[0].name == name {
            seq![s[0]]
        } else {
            Seq::empty()
        }) + named(s.drop_first(), db, name),
{
    let f = |p: PackageView| p.db == db && p.name == name;
    assert(s =~= seq![s[0]] + s.drop_first());
    Seq::filter_distributes_over_add(seq![s[0]], s.drop_first(), f);
    seqs::lemma_filter_one(s[0], f);
}

/// If two lists in order hold the same packages, neither can start with a package
/// that is listed before the first of the other.
proof fn lemma_same_first(dbs: Seq<Seq<char>>, a: Seq<PackageView>, b: Seq<PackageView>)
    requires
        in_order(dbs, b),
        forall|db: Seq<char>, name: Seq<char>| #[trigger] named(a, db, name) == named(b, db, name),
        a.len() > 0,
        b.len() > 0,
    ensures
        !package_lt(dbs, a[0], b[0]),
{
    let x = a[0];
    let f = |p: PackageView| p.db == x.db && p.name == x.name;
    a.lemma_filter_contains(f, 0);
    assert(named(a, x.db, x.name).contains(x));
    assert(named(b, x.db, x.name).contains(x));
    seqs::lemma_filter_from(b, f, x);
    let j = choose|j: int| 0 <= j < b.len() && b[j] == x;
    if j > 0 {
        assert(!package_lt(dbs, b[j], b[0]));
    } else {
        text::lemma_text_lt_irreflexive(x.name);
    }
}

proof fn lemma_one_list(dbs: Seq<Seq<char>>, a: Seq<PackageView>, b: Seq<PackageView>)
    requires
        in_order(dbs, a),
        in_order(dbs, b),
        forall|i: int| 0 <= i < a.len() ==> dbs.contains((#[trigger] a[i]).db),
        forall|db: Seq<char>, name: Seq<char>| #[trigger] named(a, db, name) == named(b, db, name),
    ensures
        a == b,
    decreases a.len(),
{
    if a.len() == 0 || b.len() == 0 {
        if a.len() > 0 {
            lemma_named_first(a, a[0].db, a[0].name);
            seqs::lemma_filter_none(b, |p: PackageView| p.db == a[0].db && p.name == a[0].name);
            assert(named(a, a[0].db, a[0].name).len() > 0);
        }
        if b.len() > 0 {
            lemma_named_first(b, b[0].db, b[0].name);
            seqs::lemma_filter_none(a, |p: PackageView| p.db == b[0].db && p.name == b[0].name);
            assert(named(a, b[0].db, b[0].name) == named(b, b[0].db, b[0].name));
            assert(named(b, b[0].db, b[0].name).len() > 0);
        }
        assert(a =~= b);
    } else {
        let x = a[0];
        let y = b[0];
        lemma_same_first(dbs, a, b);
        assert forall|db: Seq<char>, name: Seq<char>| #[trigger] named(b, db, name) == named(
            a,
            db,
            name,
        ) by {
            assert(named(a, db, name) == named(b, db, name));
        }
        lemma_same_first(dbs, b, a);
        text::lemma_text_lt_total(x.name, y.name);
        assert(dbs.contains(x.db));
        lemma_position(dbs, x.db);
        lemma_position(dbs, y.db);
        assert(x.db == y.db && x.name == y.name);
        lemma_named_first(a, x.db, x.name);
        lemma_named_first(b, x.db, x.name);
        assert(named(a, x.db, x.name) == named(b, x.db, x.name));
        assert(named(a, x.db, x.name)[0] == x);
        assert(named(b, x.db, x.name)[0] == y);
        let ra = a.drop_first();
        let rb = b.drop_first();
        lemma_rest_in_order(dbs, a);
        lemma_rest_in_order(dbs, b);
        assert forall|db: Seq<char>, name: Seq<char>| #[trigger] named(ra, db, name) == named(
            rb,
            db,
            name,
        ) by {
            lemma_named_first(a, db, name);
            lemma_named_first(b, db, name);
            assert(named(a, db, name) == named(b, db, name));
            let head = if x.db == db && x.name == name {
                seq![x]
            } else {
                Seq::empty()
            };
            assert(named(ra, db, name) =~= (head + named(ra, db, name)).skip(head.len() as int));
            assert(named(rb, db, name) =~= (head + named(rb, db, name)).skip(head.len() as int));
        }
        assert forall|i: int| 0 <= i < ra.len() implies dbs.contains((#[trigger] ra[i]).db) by {
            assert(ra[i] == a[i + 1]);
        }
        lemma_one_list(dbs, ra, rb);
        assert(a =~= seq![x] + ra);
        assert(b =~= seq![x] + rb);
    }
}

/// The upgrades can be listed in one way only.
pub proof fn law_one_list(
    dbs: Seq<Seq<char>>,
    all: Seq<PackageView>,
    a: Seq<PackageView>,
    b: Seq<PackageView>,
)
    requires
        lists_upgrades(dbs, all, a),
        lists_upgrades(dbs, all, b),
    ensures
        a == b,
{
    assert forall|i: int| 0 <= i < a.len() implies dbs.contains((#[trigger] a[i]).db) by {
        lemma_listed_from(dbs, all, a, i);
    }
    assert forall|db: Seq<char>, name: Seq<char>| #[trigger] named(a, db, name) == named(
        b,
        db,
        name,
    ) by {
        assert(named(b, db, name) == if dbs.contains(db) {
            named(all, db, name)
        } else {
            Seq::empty()
        });
    }
    lemma_one_list(dbs, a, b);
}

/// What is listed comes from one of the repositories and is one of the packages
/// given; and each of those from one of the repositories is listed.
pub proof fn law_lists_the_repositories(
    dbs: Seq<Seq<char>>,
    all: Seq<PackageView>,
    sorted: Seq<PackageView>,
)
    requires
        lists_upgrades(dbs, all, sorted),
    ensures
        forall|p: PackageView| #[trigger]
            sorted.contains(p) <==> all.contains(p) && dbs.contains(p.db),
{
    assert forall|p: PackageView| #[trigger] sorted.contains(p) <==> all.contains(p)
        && dbs.contains(p.db) by {
        let f = |q: PackageView| q.db == p.db && q.name == p.name;
        if sorted.contains(p) {
            let i = choose|i: int| 0 <= i < sorted.len() && sorted[i] == p;
            lemma_listed_from(dbs, all, sorted, i);
        }
        if all.contains(p) && dbs.contains(p.db) {
            let i = choose|i: int| 0 <= i < all.len() && all[i] == p;
            all.lemma_filter_contains(f, i);
            assert(named(sorted, p.db, p.name) == named(all, p.db, p.name));
            seqs::lemma_filter_from(sorted, f, p);
        }
    }
}

/// Listing what is listed already changes nothing.
pub proof fn law_listing_twice(
    dbs: Seq<Seq<char>>,
    all: Seq<PackageView>,
    once: Seq<PackageView>,
    twice: Seq<PackageView>,
)
    requires
        lists_upgrades(dbs, all, once),
        lists_upgrades(dbs, once, twice),
    ensures
        twice == once,
{
    assert forall|db: Seq<char>, name: Seq<char>| #[trigger] named(twice, db, name) == (
    if dbs.contains(db) {
        named(all, db, name)
    } else {
        Seq::empty()
    }) by {
        assert(named(once, db, name) == if dbs.contains(db) {
            named(all, db, name)
        } else {
            Seq::empty()
        });
    }
    law_one_list(dbs, all, twice, once);
}

/// The place in `s` where `x` belongs, from `k` on.
proof fn lemma_first_not_before(
    dbs: Seq<Seq<char>>,
    s: Seq<PackageView>,
    x: PackageView,
    k: int,
) -> (place: int)
    requires
        0 <= k <= s.len(),
        forall|i: int| 0 <= i < k ==> package_lt(dbs, #[trigger] s[i], x),
    ensures
        0 <= place <= s.len(),
        forall|i: int| 0 <= i < place ==> package_lt(dbs, #[trigger] s[i], x),
        place < s.len() ==> !package_lt(dbs, s[place], x),
    decreases s.len() - k,
{
    if k < s.len() && package_lt(dbs, s[k], x) {
        lemma_first_not_before(dbs, s, x, k + 1)
    } else {
        k
    }
}

/// Any packages can be listed.
pub proof fn law_listed(dbs: Seq<Seq<char>>, all: Seq<PackageView>)
    ensures
        lists_upgrades(dbs, all, listed(dbs, all)),
    decreases all.len(),
{
    if all.len() == 0 {
        assert forall|db: Seq<char>, name: Seq<char>| #[trigger] named(all, db, name) == (
        if dbs.contains(db) {
            named(all, db, name)
        } else {
            Seq::empty()
        }) by {
            seqs::lemma_filter_none(all, |p: PackageView| p.db == db && p.name == name);
        }
        assert(lists_upgrades(dbs, all, all));
    } else {
        let x = all[0];
        let tail = all.drop_first();
        let sorted = listed(dbs, tail);
        law_listed(dbs, tail);
        if dbs.contains(x.db) {
            let k = lemma_first_not_before(dbs, sorted, x, 0);
            let r = sorted.insert(k, x);
            assert forall|i: int| 0 <= i < sorted.len() implies dbs.contains(
                (#[trigger] sorted[i]).db,
            ) by {
                lemma_listed_from(dbs, tail, sorted, i);
            }
            lemma_place(dbs, Seq::empty(), sorted, k, x);
            assert forall|db: Seq<char>, name: Seq<char>| #[trigger] named(r, db, name) == (
            if dbs.contains(db) {
                named(all, db, name)
            } else {
                Seq::empty()
            }) by {
                let f = |p: PackageView| p.db == db && p.name == name;
                let none = Seq::<PackageView>::empty();
                assert(named(none, db, name) + named(r, db, name) == named(none.push(x), db, name)
                    + named(sorted, db, name));
                seqs::lemma_filter_none(none, f);
                assert(none + named(r, db, name) =~= named(r, db, name));
                assert(none.push(x) =~= seq![x]);
                seqs::lemma_filter_one(x, f);
                lemma_named_first(all, db, name);
                assert(named(sorted, db, name) == if dbs.contains(db) {
                    named(tail, db, name)
                } else {
                    Seq::empty()
                });
            }
            assert(lists_upgrades(dbs, all, r));
        } else {
            assert forall|db: Seq<char>, name: Seq<char>| #[trigger] named(sorted, db, name) == (
            if dbs.contains(db) {
                named(all, db, name)
            } else {
                Seq::empty()
            }) by {
                lemma_named_first(all, db, name);
                assert(Seq::<PackageView>::empty() + named(tail, db, name) =~= named(
                    tail,
                    db,
                    name,
                ));
            }
            assert(lists_upgrades(dbs, all, sorted));
        }
    }
}

/// Lists the packages of a system upgrade that come from the repositories in `dbs`,
/// by the place of the repository, then by name.
pub fn repo_upgrades(pkgs: Vec<Package>, dbs: &Vec<String>) -> (upgrades: Vec<Package>)
    ensures
        lists_upgrades(text::views(dbs@), text::views(pkgs@), text::views(upgrades@)),
        text::views(upgrades@) == listed(text::views(dbs@), text::views(pkgs@)),
{
    let ghost names = text::views(dbs@);
    let ghost all = text::views(pkgs@);
    let mut rest = pkgs;
    let mut sorted: Vec<Package> = Vec::new();
    proof {
        assert forall|db: Seq<char>, name: Seq<char>| names.contains(db) implies #[trigger] named(
            text::views(rest@),
            db,
            name,
        ) + named(text::views(sorted@), db, name) == named(all, db, name) by {
            reveal(Seq::filter);
            assert(named(text::views(sorted@), db, name) =~= Seq::empty());
            assert(named(all, db, name) + Seq::empty() =~= named(all, db, name));
        }
    }
    while rest.len() > 0
        invariant
            names == text::views(dbs@),
            in_order(names, text::views(sorted@)),
            forall|i: int|
                0 <= i < sorted@.len() ==> names.contains(
                    (#[trigger] text::views(sorted@)[i]).db,
                ),
            forall|db: Seq<char>, name: Seq<char>|
                names.contains(db) ==> #[trigger] named(text::views(rest@), db, name) + named(
                    text::views(sorted@),
                    db,
                    name,
                ) == named(all, db, name),
        decreases rest@.len(),
    {
        let ghost before = rest@;
        let ghost placed = sorted@;
        let pkg = rest.pop().unwrap();
        proof {
            assert(before =~= rest@.push(pkg));
            text::lemma_views_push(rest@, pkg);
            lemma_position(names, pkg@.db);
        }
        let place = db_position(dbs, &pkg.db);
        if place < dbs.len() {
            let mut k: usize = 0;
            while k < sorted.len() && package_less(dbs, &sorted[k], &pkg)
                invariant
                    names == text::views(dbs@),
                    k <= sorted@.len(),
                    forall|i: int|
                        0 <= i < k ==> package_lt(
                            names,
                            #[trigger] text::views(sorted@)[i],
                            pkg@,
                        ),
                decreases sorted@.len() - k,
            {
                k += 1;
            }
            sorted.insert(k, pkg);
            proof {
                lemma_place(names, text::views(rest@), text::views(placed), k as int, pkg@);
                assert(text::views(sorted@) =~= text::views(placed).insert(k as int, pkg@));
                assert forall|i: int| 0 <= i < sorted@.len() implies names.contains(
                    (#[trigger] text::views(sorted@)[i]).db,
                ) by {
                    if i < k {
                        assert(text::views(sorted@)[i] == text::views(placed)[i]);
                    } else if i > k {
                        assert(text::views(sorted@)[i] == text::views(placed)[i - 1]);
                    }
                }
                assert forall|db: Seq<char>, name: Seq<char>|
                    names.contains(db) implies #[trigger] named(text::views(rest@), db, name)
                    + named(text::views(sorted@), db, name) == named(all, db, name) by {
                    assert(named(text::views(before), db, name) + named(
                        text::views(placed),
                        db,
                        name,
                    ) == named(all, db, name));
                }
            }
        } else {
            proof {
                assert forall|db: Seq<char>, name: Seq<char>|
                    names.contains(db) implies #[trigger] named(text::views(rest@), db, name)
                    + named(text::views(sorted@), db, name) == named(all, db, name) by {
                    let f = |p: PackageView| p.db == db && p.name == name;
                    assert(named(text::views(before), db, name) + named(
                        text::views(placed),
                        db,
                        name,
                    ) == named(all, db, name));
                    assert(text::views(before) =~= text::views(rest@) + seq![pkg@]);
                    Seq::filter_distributes_over_add(text::views(rest@), seq![pkg@], f);
                    seqs::lemma_filter_one(pkg@, f);
                    assert(named(text::views(before), db, name) =~= named(
                        text::views(rest@),
                        db,
                        name,
                    ));
                }
            }
        }
    }
    proof {
        assert forall|db: Seq<char>, name: Seq<char>| #[trigger]
            named(text::views(sorted@), db, name) == (if names.contains(db) {
                named(all, db, name)
            } else {
                Seq::empty()
            }) by {
            let f = |p: PackageView| p.db == db && p.name == name;
            if names.contains(db) {
                assert(named(text::views(rest@), db, name) + named(text::views(sorted@), db, name)
                    == named(all, db, name));
                seqs::lemma_filter_none(text::views(rest@), f);
                assert(Seq::<PackageView>::empty() + named(text::views(sorted@), db, name)
                    =~= named(text::views(sorted@), db, name));
            } else {
                seqs::lemma_filter_none(text::views(sorted@), f);
            }
        }
    }
    proof {
        assert(lists_upgrades(names, all, text::views(sorted@)));
        law_one_list(names, all, text::views(sorted@), listed(names, all));
    }
    sorted
}

/// What is listed are the packages given that come from one of the repositories: of
/// each repository and name, the same ones, as often and in the same order; and none
/// from elsewhere.
pub proof fn law_listed_content(
    dbs: Seq<Seq<char>>,
    all: Seq<PackageView>,
    db: Seq<char>,
    name: Seq<char>,
)
    ensures
        dbs.contains(db) ==> listed(dbs, all).filter(
            |p: PackageView| p.db == db && p.name == name,
        ) == all.filter(|p: PackageView| p.db == db && p.name == name),
        forall|i: int|
            0 <= i < listed(dbs, all).len() ==> dbs.contains((#[trigger] listed(dbs, all)[i]).db),
{
    let r = listed(dbs, all);
    law_listed(dbs, all);
    assert(named(r, db, name) == if dbs.contains(db) {
        named(all, db, name)
    } else {
        Seq::empty()
    });
    assert forall|i: int| 0 <= i < r.len() implies dbs.contains((#[trigger] r[i]).db) by {
        lemma_listed_from(dbs, all, r, i);
    }
}

/// Of two packages that are listed, the first comes from the same repository as the
/// second and the second is not named before it; or the repository of the first is
/// named before that of the second.
pub proof fn law_listed_order(dbs: Seq<Seq<char>>, all: Seq<PackageView>, i: int, j: int)
    requires
        0 <= i < j < listed(dbs, all).len(),
    ensures
        ({
            let a = listed(dbs, all)[i];
            let b = listed(dbs, all)[j];
            ||| a.db == b.db && !text::text_lt(b.name, a.name)
            ||| exists|p: int|
                {
                    &&& 0 <= p < dbs.len()
                    &&& #[trigger] dbs[p] == a.db
                    &&& forall|q: int| 0 <= q <= p ==> #[trigger] dbs[q] != b.db
                }
        }),
{
    let r = listed(dbs, all);
    law_listed(dbs, all);
    lemma_listed_from(dbs, all, r, i);
    lemma_listed_from(dbs, all, r, j);
    assert(!package_lt(dbs, r[j], r[i]));
    lemma_position(dbs, r[i].db);
    lemma_position(dbs, r[j].db);
    let p = position(dbs, r[i].db) as int;
    if r[i].db != r[j].db {
        assert(dbs[p] == r[i].db);
        assert forall|q: int| 0 <= q <= p implies #[trigger] dbs[q] != r[j].db by {
            assert(p != position(dbs, r[j].db));
        }
    }
}

} // verus!
