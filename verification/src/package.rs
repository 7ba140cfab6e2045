//! Packages and updates, as the package databases and the network report them.

use crate::text;
use vstd::prelude::*;

verus! {

/// A package of a database.
pub struct Package {
    pub name: String,
    /// The name of the database.
    pub db: String,
    pub version: String,
}

#[verifier::ext_equal]
pub struct PackageView {
    pub name: Seq<char>,
    pub db: Seq<char>,
    pub version: Seq<char>,
}

impl View for Package {
    type V = PackageView;

    open spec fn view(&self) -> PackageView {
        PackageView { name: self.name@, db: self.db@, version: self.version@ }
    }
}

/// The first of the packages called `name`.
pub open spec fn find(pkgs: Seq<PackageView>, name: Seq<char>) -> Option<PackageView>
    decreases pkgs.len(),
{
    if pkgs.len() == 0 {
        None
    } else if pkgs[0].name == name {
        Some(pkgs[0])
    } else {
        find(pkgs.drop_first(), name)
    }
}

/// The packages of some databases, those of the first database first.
pub struct PackageDb {
    pub pkgs: Vec<Package>,
}

impl View for PackageDb {
    type V = Seq<PackageView>;

    open spec fn view(&self) -> Seq<PackageView> {
        text::views(self.pkgs@)
    }
}

impl PackageDb {
    /// Looks up the package called `name`; where several databases hold one, that of
    /// the first.
    pub fn pkg(&self, name: &str) -> (found: Option<&Package>)
        ensures
            match found {
                Some(pkg) => find(self@, name@) == Some(pkg@),
                None => find(self@, name@) is None,
            },
    {
        let mut i: usize = 0;
        proof {
            assert(self@.skip(0) =~= self@);
        }
        while i < self.pkgs.len()
            invariant
                i <= self.pkgs@.len(),
                find(self@, name@) == find(self@.skip(i as int), name@),
            decreases self.pkgs@.len() - i,
        {
            if text::same_text(&self.pkgs[i].name, name) {
                return Some(&self.pkgs[i]);
            }
            proof {
                assert(self@.skip(i as int).drop_first() =~= self@.skip(i + 1));
            }
            i += 1;
        }
        None
    }
}

/// The package databases of the system.
pub struct Databases {
    /// What is installed.
    pub local: PackageDb,
    /// The sync repositories, in the order in which they are searched.
    pub sync: PackageDb,
    /// The local repositories of built AUR packages.
    pub aur: PackageDb,
}

#[verifier::ext_equal]
pub struct DatabasesView {
    pub local: Seq<PackageView>,
    pub sync: Seq<PackageView>,
    pub aur: Seq<PackageView>,
}

impl View for Databases {
    type V = DatabasesView;

    open spec fn view(&self) -> DatabasesView {
        DatabasesView { local: self.local@, sync: self.sync@, aur: self.aur@ }
    }
}

/// An update that the AUR offers for an installed package.
pub struct AurUpdate {
    /// The name under which the package is installed.
    pub local_name: String,
    pub local_version: String,
    /// The database that holds the installed package, where it has one.
    pub local_db: Option<String>,
    /// The name under which the AUR lists the package.
    pub remote_name: String,
    pub remote_version: String,
    /// When the AUR package was last modified, in seconds since the Unix epoch.
    pub last_modified: i64,
}

#[verifier::ext_equal]
pub struct AurUpdateView {
    pub local_name: Seq<char>,
    pub local_version: Seq<char>,
    pub local_db: Option<Seq<char>>,
    pub remote_name: Seq<char>,
    pub remote_version: Seq<char>,
    pub last_modified: int,
}

impl View for AurUpdate {
    type V = AurUpdateView;

    open spec fn view(&self) -> AurUpdateView {
        AurUpdateView {
            local_name: self.local_name@,
            local_version: self.local_version@,
            local_db: text::opt_view(self.local_db),
            remote_name: self.remote_name@,
            remote_version: self.remote_version@,
            last_modified: self.last_modified as int,
        }
    }
}

/// An update that a PKGBUILD repository offers for an installed package.
pub struct PkgbuildUpdate {
    /// The PKGBUILD repository.
    pub repo: String,
    pub local_name: String,
    pub local_version: String,
    pub remote_version: String,
}

#[verifier::ext_equal]
pub struct PkgbuildUpdateView {
    pub repo: Seq<char>,
    pub local_name: Seq<char>,
    pub local_version: Seq<char>,
    pub remote_version: Seq<char>,
}

impl View for PkgbuildUpdate {
    type V = PkgbuildUpdateView;

    open spec fn view(&self) -> PkgbuildUpdateView {
        PkgbuildUpdateView {
            repo: self.repo@,
            local_name: self.local_name@,
            local_version: self.local_version@,
            remote_version: self.remote_version@,
        }
    }
}

/// A package, in a given repository or in any. Development packages that have new
/// commits are named this way.
pub struct Target {
    pub repo: Option<String>,
    pub pkg: String,
}

#[verifier::ext_equal]
pub struct TargetView {
    pub repo: Option<Seq<char>>,
    pub pkg: Seq<char>,
}

impl View for Target {
    type V = TargetView;

    open spec fn view(&self) -> TargetView {
        TargetView { repo: text::opt_view(self.repo), pkg: self.pkg@ }
    }
}

/// Whether the target `a` comes before `b`: those without a repository come first,
/// then by repository, then by package.
pub open spec fn target_lt(a: TargetView, b: TargetView) -> bool {
    match (a.repo, b.repo) {
        (None, None) => text::text_lt(a.pkg, b.pkg),
        (None, Some(_)) => true,
        (Some(_), None) => false,
        (Some(x), Some(y)) => text::text_lt(x, y) || (x == y && text::text_lt(a.pkg, b.pkg)),
    }
}

/// No target comes before itself.
pub proof fn lemma_target_lt_irreflexive(a: TargetView)
    ensures
        !target_lt(a, a),
{
    text::lemma_text_lt_irreflexive(a.pkg);
    if let Some(x) = a.repo {
        text::lemma_text_lt_irreflexive(x);
    }
}

/// Of two different targets, one comes before the other.
pub proof fn lemma_target_lt_total(a: TargetView, b: TargetView)
    ensures
        a == b || target_lt(a, b) || target_lt(b, a),
{
    text::lemma_text_lt_total(a.pkg, b.pkg);
    match (a.repo, b.repo) {
        (Some(x), Some(y)) => {
            text::lemma_text_lt_total(x, y);
        },
        _ => {},
    }
}

/// The order of targets is transitive.
pub proof fn lemma_target_lt_transitive(a: TargetView, b: TargetView, c: TargetView)
    requires
        target_lt(a, b),
        target_lt(b, c),
    ensures
        target_lt(a, c),
{
    if text::text_lt(a.pkg, b.pkg) && text::text_lt(b.pkg, c.pkg) {
        text::lemma_text_lt_transitive(a.pkg, b.pkg, c.pkg);
    }
    match (a.repo, b.repo, c.repo) {
        (Some(x), Some(y), Some(z)) => {
            if text::text_lt(x, y) && text::text_lt(y, z) {
                text::lemma_text_lt_transitive(x, y, z);
            }
        },
        _ => {},
    }
}

/// Whether the targets stand in strictly increasing order.
pub open spec fn increasing(s: Seq<TargetView>) -> bool {
    forall|i: int, j: int| 0 <= i < j < s.len() ==> #[trigger] target_lt(s[i], s[j])
}

/// The targets in `s`, in order, each once.
pub open spec fn ordered(s: Seq<TargetView>) -> Seq<TargetView> {
    choose|r: Seq<TargetView>| increasing(r) && r.to_set() == s.to_set()
}

/// Targets can be put in strictly increasing order in one way only.
pub proof fn law_one_order(a: Seq<TargetView>, b: Seq<TargetView>)
    requires
        increasing(a),
        increasing(b),
        a.to_set() == b.to_set(),
    ensures
        a == b,
    decreases a.len(),
{
    if a.len() == 0 || b.len() == 0 {
        if a.len() > 0 {
            assert(a.to_set().contains(a[0]));
            assert(b.contains(a[0]));
        }
        if b.len() > 0 {
            assert(b.to_set().contains(b[0]));
            assert(a.contains(b[0]));
        }
        assert(a =~= b);
    } else {
        let x = a[0];
        let y = b[0];
        assert(a.to_set().contains(x) && b.to_set().contains(y));
        let i = choose|i: int| 0 <= i < b.len() && b[i] == x;
        let j = choose|j: int| 0 <= j < a.len() && a[j] == y;
        if x != y {
            assert(target_lt(b[0], b[i]));
            assert(target_lt(a[0], a[j]));
            lemma_target_lt_transitive(x, y, x);
            lemma_target_lt_irreflexive(x);
        }
        lemma_rest_of_increasing(a);
        lemma_rest_of_increasing(b);
        assert(a.drop_first().to_set() =~= b.drop_first().to_set());
        law_one_order(a.drop_first(), b.drop_first());
        assert(a =~= seq![x] + a.drop_first());
        assert(b =~= seq![x] + b.drop_first());
    }
}

proof fn lemma_rest_of_increasing(s: Seq<TargetView>)
    requires
        increasing(s),
        s.len() > 0,
    ensures
        increasing(s.drop_first()),
        s.drop_first().to_set() == s.to_set().remove(s[0]),
{
    let r = s.drop_first();
    assert forall|i: int, j: int| 0 <= i < j < r.len() implies #[trigger] target_lt(r[i], r[j]) by {
        assert(target_lt(s[i + 1], s[j + 1]));
    }
    assert forall|t: TargetView| r.to_set().contains(t) implies s.to_set().remove(s[0]).contains(
        t,
    ) by {
        let i = choose|i: int| 0 <= i < r.len() && r[i] == t;
        assert(s[i + 1] == t);
        assert(target_lt(s[0], s[i + 1]));
        lemma_target_lt_irreflexive(t);
    }
    assert forall|t: TargetView| s.to_set().remove(s[0]).contains(t) implies r.to_set().contains(
        t,
    ) by {
        let i = choose|i: int| 0 <= i < s.len() && s[i] == t;
        assert(r[i - 1] == t);
    }
    assert(r.to_set() =~= s.to_set().remove(s[0]));
}

/// Neither the order in which targets arrive nor how often one is named makes a
/// difference.
pub proof fn law_ordered_by_content(s: Seq<TargetView>, t: Seq<TargetView>)
    requires
        s.to_set() == t.to_set(),
    ensures
        ordered(s) == ordered(t),
{
    assert((|r: Seq<TargetView>| increasing(r) && r.to_set() == s.to_set()) =~= (
    |r: Seq<TargetView>| increasing(r) && r.to_set() == t.to_set()));
}

/// The place in `s` where `t` belongs.
proof fn lemma_place(s: Seq<TargetView>, t: TargetView) -> (k: int)
    requires
        increasing(s),
        !s.contains(t),
    ensures
        0 <= k <= s.len(),
        forall|i: int| 0 <= i < k ==> target_lt(#[trigger] s[i], t),
        k < s.len() ==> target_lt(t, s[k]),
    decreases s.len(),
{
    if s.len() == 0 {
        0
    } else {
        let r = s.drop_last();
        let k = lemma_place(r, t);
        if k == r.len() {
            lemma_target_lt_total(s.last(), t);
            assert(s.contains(s.last()));
            assert forall|i: int| 0 <= i < k implies target_lt(#[trigger] s[i], t) by {
                assert(target_lt(r[i], t));
            }
            if target_lt(s.last(), t) {
                s.len() as int
            } else {
                k
            }
        } else {
            assert forall|i: int| 0 <= i < k implies target_lt(#[trigger] s[i], t) by {
                assert(target_lt(r[i], t));
            }
            k
        }
    }
}

/// Any targets can be put in order: `ordered` holds those in `s` and no others, in
/// strictly increasing order.
pub proof fn law_ordered(s: Seq<TargetView>)
    ensures
        increasing(ordered(s)),
        ordered(s).to_set() == s.to_set(),
    decreases s.len(),
{
    if s.len() == 0 {
        assert(increasing(s) && s.to_set() == s.to_set());
    } else {
        let t = s.last();
        let r = ordered(s.drop_last());
        law_ordered(s.drop_last());
        assert(s =~= s.drop_last().push(t));
        assert(s.to_set() =~= s.drop_last().to_set().insert(t)) by {
            assert(s[s.len() - 1] == t);
            assert forall|x: TargetView| s.drop_last().to_set().insert(t).contains(
                x,
            ) implies s.to_set().contains(x) by {
                if x != t {
                    let i = choose|i: int| 0 <= i < s.drop_last().len() && s.drop_last()[i] == x;
                    assert(s[i] == x);
                }
            }
            assert forall|x: TargetView| s.to_set().contains(x) implies s.drop_last().to_set().insert(
                t,
            ).contains(x) by {
                let i = choose|i: int| 0 <= i < s.len() && s[i] == x;
                if i < s.len() - 1 {
                    assert(s.drop_last()[i] == x);
                }
            }
        }
        if r.contains(t) {
            assert(r.to_set().contains(t));
            assert(r.to_set() =~= s.to_set());
            assert(increasing(r) && r.to_set() == s.to_set());
        } else {
            let k = lemma_place(r, t);
            let w = r.insert(k, t);
            lemma_insert_increasing(r, k, t);
            assert(w.to_set() =~= r.to_set().insert(t)) by {
                lemma_take_over(r, w, Seq::empty(), t, k, true);
                assert(Seq::empty().push(t).to_set() =~= set![t]) by {
                    assert(Seq::empty().push(t)[0] == t);
                }
                assert(w.to_set().union(Seq::empty().to_set()) =~= w.to_set());
                assert(r.to_set().union(set![t]) =~= r.to_set().insert(t));
            }
            assert(increasing(w) && w.to_set() == s.to_set());
        }
    }
}

/// Whether `a` comes before `b`.
pub fn target_less(a: &Target, b: &Target) -> (r: bool)
    ensures
        r == target_lt(a@, b@),
{
    match (&a.repo, &b.repo) {
        (None, None) => text::text_less(&a.pkg, &b.pkg),
        (None, Some(_)) => true,
        (Some(_), None) => false,
        (Some(x), Some(y)) => {
            text::text_less(x, y) || (text::same_text(x, y) && text::text_less(&a.pkg, &b.pkg))
        },
    }
}

/// Puts the targets in order, each once.
pub fn sort_dedup(targets: Vec<Target>) -> (sorted: Vec<Target>)
    ensures
        increasing(text::views(sorted@)),
        text::views(sorted@).to_set() == text::views(targets@).to_set(),
        text::views(sorted@) == ordered(text::views(targets@)),
{
    let mut rest = targets;
    let mut sorted: Vec<Target> = Vec::new();
    let ghost all = text::views(targets@);
    proof {
        assert(text::views(sorted@).to_set().union(text::views(rest@).to_set()) =~= all.to_set());
    }
    while rest.len() > 0
        invariant
            increasing(text::views(sorted@)),
            text::views(sorted@).to_set().union(text::views(rest@).to_set()) == all.to_set(),
        decreases rest@.len(),
    {
        let ghost before = rest@;
        let ghost placed = sorted@;
        let target = rest.pop().unwrap();
        let mut k: usize = 0;
        while k < sorted.len() && target_less(&sorted[k], &target)
            invariant
                k <= sorted@.len(),
                forall|i: int|
                    0 <= i < k ==> target_lt(#[trigger] text::views(sorted@)[i], target@),
            decreases sorted@.len() - k,
        {
            k += 1;
        }
        let fresh = k == sorted.len() || target_less(&target, &sorted[k]);
        if fresh {
            sorted.insert(k, target);
            proof {
                lemma_insert_increasing(text::views(placed), k as int, target@);
                assert(text::views(sorted@) =~= text::views(placed).insert(k as int, target@));
            }
        } else {
            proof {
                lemma_target_lt_total(text::views(placed)[k as int], target@);
            }
        }
        proof {
            assert(before =~= rest@.push(target));
            text::lemma_views_push(rest@, target);
            lemma_take_over(
                text::views(placed),
                text::views(sorted@),
                text::views(rest@),
                target@,
                k as int,
                fresh,
            );
        }
    }
    proof {
        assert(text::views(rest@).to_set() =~= Set::<TargetView>::empty());
        assert(text::views(sorted@).to_set() =~= all.to_set());
        law_one_order(text::views(sorted@), ordered(all));
    }
    sorted
}

proof fn lemma_insert_increasing(s: Seq<TargetView>, k: int, t: TargetView)
    requires
        increasing(s),
        0 <= k <= s.len(),
        forall|i: int| 0 <= i < k ==> target_lt(#[trigger] s[i], t),
        k < s.len() ==> target_lt(t, s[k]),
    ensures
        increasing(s.insert(k, t)),
{
    let r = s.insert(k, t);
    assert forall|i: int, j: int| 0 <= i < j < r.len() implies #[trigger] target_lt(r[i], r[j]) by {
        if i < k && j > k {
            assert(target_lt(s[i], s[j - 1]));
        } else if i == k {
            if j - 1 > k {
                assert(target_lt(s[k], s[j - 1]));
                lemma_target_lt_transitive(t, s[k], s[j - 1]);
            }
        } else if i > k {
            assert(target_lt(s[i - 1], s[j - 1]));
        } else if j < k {
            assert(target_lt(s[i], s[j]));
        }
    }
}

proof fn lemma_take_over(
    placed: Seq<TargetView>,
    sorted: Seq<TargetView>,
    rest: Seq<TargetView>,
    t: TargetView,
    k: int,
    fresh: bool,
)
    requires
        0 <= k <= placed.len(),
        fresh ==> sorted == placed.insert(k, t),
        !fresh ==> sorted == placed && k < placed.len() && placed[k] == t,
    ensures
        sorted.to_set().union(rest.to_set()) == placed.to_set().union(rest.push(t).to_set()),
{
    let l = sorted.to_set().union(rest.to_set());
    let r = placed.to_set().union(rest.push(t).to_set());
    assert forall|x: TargetView| l.contains(x) implies r.contains(x) by {
        if sorted.contains(x) {
            let i = choose|i: int| 0 <= i < sorted.len() && sorted[i] == x;
            if fresh {
                if i < k {
                    assert(placed[i] == x);
                } else if i == k {
                    assert(rest.push(t)[rest.len() as int] == x);
                } else {
                    assert(placed[i - 1] == x);
                }
            }
        } else {
            let i = choose|i: int| 0 <= i < rest.len() && rest[i] == x;
            assert(rest.push(t)[i] == x);
        }
    }
    assert forall|x: TargetView| r.contains(x) implies l.contains(x) by {
        if placed.contains(x) {
            let i = choose|i: int| 0 <= i < placed.len() && placed[i] == x;
            if fresh {
                if i < k {
                    assert(sorted[i] == x);
                } else {
                    assert(sorted[i + 1] == x);
                }
            }
        } else {
            let i = choose|i: int| 0 <= i < rest.push(t).len() && rest.push(t)[i] == x;
            if i == rest.len() {
                assert(x == t);
                assert(sorted[k] == t);
            } else {
                assert(rest[i] == x);
            }
        }
    }
    assert(l =~= r);
}

/// A lookup finds a package of the name asked for, and none stands before it; it
/// finds nothing exactly when no package has that name.
pub proof fn law_find(pkgs: Seq<PackageView>, name: Seq<char>)
    ensures
        find(pkgs, name) is None <==> forall|i: int|
            0 <= i < pkgs.len() ==> (#[trigger] pkgs[i]).name != name,
        forall|i: int|
            0 <= i < pkgs.len() && (#[trigger] pkgs[i]).name == name && (forall|j: int|
                0 <= j < i ==> (#[trigger] pkgs[j]).name != name) ==> find(pkgs, name) == Some(
                pkgs[i],
            ),
        find(pkgs, name) is Some ==> pkgs.contains(find(pkgs, name).unwrap()) && find(
            pkgs,
            name,
        ).unwrap().name == name,
    decreases pkgs.len(),
{
    if pkgs.len() > 0 && pkgs[0].name != name {
        let rest = pkgs.drop_first();
        law_find(rest, name);
        if find(pkgs, name) is None {
            assert forall|i: int| 0 <= i < pkgs.len() implies (#[trigger] pkgs[i]).name != name by {
                if i > 0 {
                    assert(rest[i - 1].name != name);
                }
            }
        } else {
            let p = find(rest, name).unwrap();
            let j = choose|j: int| 0 <= j < rest.len() && rest[j] == p;
            assert(pkgs[j + 1] == p);
        }
        assert forall|i: int|
            0 <= i < pkgs.len() && (#[trigger] pkgs[i]).name == name && (forall|j: int|
                0 <= j < i ==> (#[trigger] pkgs[j]).name != name) implies find(pkgs, name) == Some(
            pkgs[i],
        ) by {
            assert(rest[i - 1] == pkgs[i]);
            assert forall|j: int| 0 <= j < i - 1 implies (#[trigger] rest[j]).name != name by {
                assert(pkgs[j + 1].name != name);
            }
        }
    } else if pkgs.len() > 0 {
        assert(pkgs.contains(pkgs[0]));
        assert forall|i: int|
            0 <= i < pkgs.len() && (#[trigger] pkgs[i]).name == name && (forall|j: int|
                0 <= j < i ==> (#[trigger] pkgs[j]).name != name) implies find(pkgs, name) == Some(
            pkgs[i],
        ) by {
            if i > 0 {
                assert(pkgs[0].name != name);
            }
        }
    }
}

/// Targets are ordered by repository, with none before any, and within one repository
/// by package.
pub proof fn law_target_order(a: TargetView, b: TargetView)
    ensures
        a.repo == b.repo ==> (target_lt(a, b) <==> text::text_lt(a.pkg, b.pkg)),
        a.repo is None && b.repo is Some ==> target_lt(a, b) && !target_lt(b, a),
        a.repo is Some && b.repo is Some && a.repo != b.repo ==> (target_lt(a, b)
            <==> text::text_lt(a.repo.unwrap(), b.repo.unwrap())),
{
    if let Some(x) = a.repo {
        text::lemma_text_lt_irreflexive(x);
    }
}

/// Put in order, the targets are those given, each once, and each comes before those
/// that stand behind it.
pub proof fn law_ordered_sorts(s: Seq<TargetView>)
    ensures
        forall|t: TargetView| #[trigger] ordered(s).contains(t) <==> s.contains(t),
        ordered(s).no_duplicates(),
        forall|i: int, j: int|
            0 <= i < j < ordered(s).len() ==> #[trigger] target_lt(ordered(s)[i], ordered(s)[j]),
{
    law_ordered(s);
    let r = ordered(s);
    assert forall|t: TargetView| #[trigger] r.contains(t) <==> s.contains(t) by {
        assert(r.to_set().contains(t) <==> s.to_set().contains(t));
    }
    assert forall|i: int, j: int| 0 <= i < r.len() && 0 <= j < r.len() && i != j implies r[i]
        != r[j] by {
        lemma_target_lt_irreflexive(r[i]);
        if i < j {
            assert(target_lt(r[i], r[j]));
        } else {
            assert(target_lt(r[j], r[i]));
        }
    }
}

/// Packages and updates are seen as they are.
pub proof fn law_packages_seen(
    pkg: Package,
    dbs: Databases,
    aur: AurUpdate,
    pkgbuild: PkgbuildUpdate,
    target: Target,
)
    ensures
        pkg@.name == pkg.name@,
        pkg@.db == pkg.db@,
        pkg@.version == pkg.version@,
        dbs@.local == text::views(dbs.local.pkgs@),
        dbs@.sync == text::views(dbs.sync.pkgs@),
        dbs@.aur == text::views(dbs.aur.pkgs@),
        aur@.local_name == aur.local_name@,
        aur@.local_version == aur.local_version@,
        aur@.local_db == text::opt_view(aur.local_db),
        aur@.remote_name == aur.remote_name@,
        aur@.remote_version == aur.remote_version@,
        aur@.last_modified == aur.last_modified,
        pkgbuild@.repo == pkgbuild.repo@,
        pkgbuild@.local_name == pkgbuild.local_name@,
        pkgbuild@.local_version == pkgbuild.local_version@,
        pkgbuild@.remote_version == pkgbuild.remote_version@,
        target@.repo == text::opt_view(target.repo),
        target@.pkg == target.pkg@,
{
}

} // verus!
