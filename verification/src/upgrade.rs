//! Putting an upgrade together.

use crate::config::Config;
use crate::cooldown::{HeldBack, HeldBackView};
use crate::cooldown;
use crate::menu::{Candidates, CandidatesView};
use crate::package::{
    AurUpdate, AurUpdateView, Package, PackageView, PkgbuildUpdate, PkgbuildUpdateView, Target,
    TargetView,
};
use crate::package;
use crate::repo;
use crate::seqs;
use crate::text;
use vstd::hash_map::StringHashMap;
use vstd::hash_set::StringHashSet;
use vstd::prelude::*;

verus! {

broadcast use crate::text::lemma_views_push;

/// What is upgraded and what is left out.
pub struct Upgrades {
    /// For AUR packages that a database holds, the name of the database.
    pub aur_repos: StringHashMap<String>,
    /// Packages from PKGBUILD repositories, each with its repository.
    pub pkgbuild_keep: Vec<(String, String)>,
    /// Packages of the sync repositories to upgrade.
    pub repo_keep: Vec<String>,
    /// Packages of the sync repositories to leave out.
    pub repo_skip: Vec<String>,
    /// AUR packages to upgrade.
    pub aur_keep: Vec<String>,
    /// Development packages that have new commits.
    pub devel: StringHashSet,
}

#[verifier::ext_equal]
pub struct UpgradesView {
    pub aur_repos: Map<Seq<char>, Seq<char>>,
    pub pkgbuild_keep: Seq<(Seq<char>, Seq<char>)>,
    pub repo_keep: Seq<Seq<char>>,
    pub repo_skip: Seq<Seq<char>>,
    pub aur_keep: Seq<Seq<char>>,
    pub devel: Set<Seq<char>>,
}

impl View for Upgrades {
    type V = UpgradesView;

    open spec fn view(&self) -> UpgradesView {
        UpgradesView {
            aur_repos: self.aur_repos@.map_values(|db: String| db@),
            pkgbuild_keep: text::views(self.pkgbuild_keep@),
            repo_keep: text::views(self.repo_keep@),
            repo_skip: text::views(self.repo_skip@),
            aur_keep: text::views(self.aur_keep@),
            devel: self.devel@,
        }
    }
}

impl UpgradesView {
    /// Nothing is upgraded and nothing left out.
    pub open spec fn nothing() -> UpgradesView {
        UpgradesView {
            aur_repos: Map::empty(),
            pkgbuild_keep: Seq::empty(),
            repo_keep: Seq::empty(),
            repo_skip: Seq::empty(),
            aur_keep: Seq::empty(),
            devel: Set::empty(),
        }
    }
}

impl Default for Upgrades {
    fn default() -> (u: Upgrades)
        ensures
            u@ == UpgradesView::nothing(),
    {
        let u = Upgrades {
            aur_repos: StringHashMap::new(),
            pkgbuild_keep: Vec::new(),
            repo_keep: Vec::new(),
            repo_skip: Vec::new(),
            aur_keep: Vec::new(),
            devel: StringHashSet::new(),
        };
        assert(u@ =~= UpgradesView::nothing());
        u
    }
}

/// For the AUR updates of packages that a database holds, the name of the database;
/// where two have the same name, that of the later one.
pub open spec fn repos_of(aur: Seq<AurUpdateView>) -> Map<Seq<char>, Seq<char>>
    decreases aur.len(),
{
    if aur.len() == 0 {
        Map::empty()
    } else {
        let before = repos_of(aur.drop_last());
        match aur.last().local_db {
            Some(db) => before.insert(aur.last().local_name, db),
            None => before,
        }
    }
}

/// The names of the packages that the targets speak of.
pub open spec fn names_of(devel: Seq<TargetView>) -> Set<Seq<char>> {
    devel.map_values(|t: TargetView| t.pkg).to_set()
}

/// The AUR updates that no development package stands in for, in the order given.
pub open spec fn without_devel(aur: Seq<AurUpdateView>, devel: Seq<TargetView>) -> Seq<
    AurUpdateView,
> {
    aur.filter(|u: AurUpdateView| !names_of(devel).contains(u.remote_name))
}

/// Development packages from the AUR, of those given.
pub open spec fn aur_devel(namespace: Seq<char>, devel: Seq<TargetView>) -> Seq<Seq<char>> {
    devel.filter(|t: TargetView| t.repo == Some(namespace)).map_values(|t: TargetView| t.pkg)
}

/// Development packages from PKGBUILD repositories, of those given, each with its
/// repository.
pub open spec fn custom_devel(namespace: Seq<char>, devel: Seq<TargetView>) -> Seq<
    (Seq<char>, Seq<char>),
> {
    devel.filter(|t: TargetView| t.repo != Some(namespace)).map_values(
        |t: TargetView| (t.repo.unwrap(), t.pkg),
    )
}

/// Everything is upgraded.
pub open spec fn all_of(namespace: Seq<char>, c: CandidatesView) -> UpgradesView {
    UpgradesView {
        aur_repos: repos_of(c.aur),
        pkgbuild_keep: c.pkgbuild.map_values(
            |u: PkgbuildUpdateView| (u.repo, u.local_name),
        ) + custom_devel(namespace, c.devel),
        repo_keep: c.repo.map_values(|p: PackageView| p.name),
        repo_skip: Seq::empty(),
        aur_keep: c.aur.map_values(|u: AurUpdateView| u.remote_name) + aur_devel(
            namespace,
            c.devel,
        ),
        devel: names_of(c.devel),
    }
}

/// The items of `s` that `keep` marks.
pub open spec fn picked<A>(s: Seq<A>, keep: Seq<bool>) -> Seq<A>
    decreases s.len(),
{
    if s.len() == 0 {
        s
    } else {
        let before = picked(s.drop_last(), keep);
        if keep[s.len() - 1] {
            before.push(s.last())
        } else {
            before
        }
    }
}

/// What is left once the upgrades that `keep` does not mark are taken out. The marks
/// stand in the order of the menu.
pub open spec fn chosen(namespace: Seq<char>, c: CandidatesView, keep: Seq<bool>) -> UpgradesView {
    let aur_keep = keep.skip(c.repo.len() as int);
    let devel_keep = aur_keep.skip(c.aur.len() as int);
    let pkgbuild_keep = devel_keep.skip(c.devel.len() as int);
    let repo = c.repo.map_values(|p: PackageView| p.name);
    let devel = picked(c.devel, devel_keep);
    UpgradesView {
        aur_repos: repos_of(c.aur),
        pkgbuild_keep: custom_devel(namespace, devel) + picked(
            c.pkgbuild.map_values(|u: PkgbuildUpdateView| (u.repo, u.local_name)),
            pkgbuild_keep,
        ),
        repo_keep: picked(repo, keep),
        repo_skip: picked(repo, keep.map_values(|k: bool| !k)),
        aur_keep: picked(c.aur.map_values(|u: AurUpdateView| u.local_name), aur_keep) + aur_devel(
            namespace,
            devel,
        ),
        devel: names_of(c.devel),
    }
}

fn aur_repos_of(aur: &Vec<AurUpdate>) -> (m: StringHashMap<String>)
    ensures
        m@.map_values(|db: String| db@) == repos_of(text::views(aur@)),
{
    let ghost all = text::views(aur@);
    let mut m: StringHashMap<String> = StringHashMap::new();
    let mut i: usize = 0;
    proof {
        assert(m@.map_values(|db: String| db@) =~= repos_of(all.take(0)));
    }
    while i < aur.len()
        invariant
            all == text::views(aur@),
            i <= aur@.len(),
            m@.map_values(|db: String| db@) == repos_of(all.take(i as int)),
        decreases aur@.len() - i,
    {
        proof {
            assert(all.take(i + 1).drop_last() =~= all.take(i as int));
            assert(all.take(i + 1).last() == aur@[i as int]@);
        }
        match &aur[i].local_db {
            Some(db) => {
                let ghost before = m@;
                m.insert(aur[i].local_name.clone(), db.clone());
                proof {
                    assert(m@.map_values(|db: String| db@) =~= before.map_values(
                        |db: String| db@,
                    ).insert(aur@[i as int].local_name@, db@));
                }
            },
            None => {},
        }
        i += 1;
    }
    proof {
        assert(all.take(i as int) =~= all);
    }
    m
}

fn devel_names(devel: &Vec<Target>) -> (names: StringHashSet)
    ensures
        names@ == names_of(text::views(devel@)),
{
    let ghost all = text::views(devel@);
    let mut names = StringHashSet::new();
    let mut i: usize = 0;
    proof {
        assert(names@ =~= names_of(all.take(0)));
    }
    while i < devel.len()
        invariant
            all == text::views(devel@),
            i <= devel@.len(),
            names@ == names_of(all.take(i as int)),
        decreases devel@.len() - i,
    {
        names.insert(devel[i].pkg.clone());
        proof {
            assert(all[i as int] == devel@[i as int]@);
            lemma_names_push(all.take(i as int), all[i as int]);
            assert(all.take(i + 1) =~= all.take(i as int).push(all[i as int]));
        }
        i += 1;
    }
    proof {
        assert(all.take(i as int) =~= all);
    }
    names
}

proof fn lemma_names_push(s: Seq<TargetView>, t: TargetView)
    ensures
        names_of(s.push(t)) == names_of(s).insert(t.pkg),
{
    let f = |t: TargetView| t.pkg;
    let a = s.map_values(f);
    let b = s.push(t).map_values(f);
    assert(b =~= a.push(t.pkg));
    assert forall|x: Seq<char>| names_of(s).insert(t.pkg).contains(x) implies names_of(
        s.push(t),
    ).contains(x) by {
        if x == t.pkg {
            assert(b[s.len() as int] == x);
        } else {
            let i = choose|i: int| 0 <= i < a.len() && a[i] == x;
            assert(b[i] == x);
        }
    }
    assert forall|x: Seq<char>| names_of(s.push(t)).contains(x) implies names_of(s).insert(
        t.pkg,
    ).contains(x) by {
        let i = choose|i: int| 0 <= i < b.len() && b[i] == x;
        if i < a.len() {
            assert(a[i] == x);
        }
    }
    assert(names_of(s.push(t)) =~= names_of(s).insert(t.pkg));
}

/// Takes out of `aur` what a development package stands in for.
fn drop_devel(aur: &mut Vec<AurUpdate>, devel: &Vec<Target>)
    ensures
        text::views(final(aur)@) == without_devel(text::views(old(aur)@), text::views(devel@)),
{
    let names = devel_names(devel);
    let ghost stays = |u: AurUpdateView| !names_of(text::views(devel@)).contains(u.remote_name);
    let ghost all = text::views(aur@);
    let ghost mut seen: int = 0;
    let mut i: usize = 0;
    proof {
        reveal(Seq::filter);
        assert(all.take(0).filter(stays) + all.skip(0) =~= all);
    }
    while i < aur.len()
        invariant
            names@ == names_of(text::views(devel@)),
            stays == (|u: AurUpdateView|
                !names_of(text::views(devel@)).contains(u.remote_name)),
            0 <= seen <= all.len(),
            i == all.take(seen).filter(stays).len(),
            text::views(aur@) == all.take(seen).filter(stays) + all.skip(seen),
        decreases all.len() - seen,
    {
        let ghost u = all[seen];
        let ghost before = aur@;
        proof {
            assert(text::views(aur@).len() == i + (all.len() - seen));
            assert(text::views(aur@)[i as int] == all.skip(seen)[0]);
            assert(aur@[i as int]@ == u);
            assert(all.take(seen + 1) =~= all.take(seen).push(u));
            seqs::lemma_filter_push(all.take(seen), u, stays);
        }
        if names.contains(&aur[i].remote_name) {
            aur.remove(i);
            proof {
                assert(text::views(aur@) =~= text::views(before).remove(i as int));
                assert(text::views(aur@) =~= all.take(seen).filter(stays) + all.skip(seen + 1));
            }
        } else {
            i += 1;
            proof {
                assert(all.take(seen).filter(stays).push(u) + all.skip(seen + 1) =~= all.take(
                    seen,
                ).filter(stays) + all.skip(seen));
            }
        }
        proof {
            seen = seen + 1;
        }
    }
    proof {
        assert(text::views(aur@).len() == i + (all.len() - seen));
        assert(all.take(seen) =~= all);
        assert(all.take(seen).filter(stays) + all.skip(seen) =~= all.take(seen).filter(stays));
    }
}

proof fn lemma_devel_push(namespace: Seq<char>, s: Seq<TargetView>, t: TargetView)
    ensures
        aur_devel(namespace, s.push(t)) == if t.repo == Some(namespace) {
            aur_devel(namespace, s).push(t.pkg)
        } else {
            aur_devel(namespace, s)
        },
        custom_devel(namespace, s.push(t)) == if t.repo == Some(namespace) {
            custom_devel(namespace, s)
        } else {
            custom_devel(namespace, s).push((t.repo.unwrap(), t.pkg))
        },
{
    seqs::lemma_filter_push(s, t, |t: TargetView| t.repo == Some(namespace));
    seqs::lemma_filter_push(s, t, |t: TargetView| t.repo != Some(namespace));
    assert(aur_devel(namespace, s.push(t)) =~= if t.repo == Some(namespace) {
        aur_devel(namespace, s).push(t.pkg)
    } else {
        aur_devel(namespace, s)
    });
    assert(custom_devel(namespace, s.push(t)) =~= if t.repo == Some(namespace) {
        custom_devel(namespace, s)
    } else {
        custom_devel(namespace, s).push((t.repo.unwrap(), t.pkg))
    });
}

/// Adds a development package to those of the AUR or to those of PKGBUILD
/// repositories.
fn add_devel(
    namespace: &str,
    target: &Target,
    aur: &mut Vec<String>,
    custom: &mut Vec<(String, String)>,
)
    requires
        target.repo is Some,
    ensures
        target@.repo == Some(namespace@) ==> text::views(final(aur)@) == text::views(
            old(aur)@,
        ).push(target.pkg@) && final(custom)@ == old(custom)@,
        target@.repo != Some(namespace@) ==> text::views(final(custom)@) == text::views(
            old(custom)@,
        ).push((target@.repo.unwrap(), target.pkg@)) && final(aur)@ == old(aur)@,
{
    match &target.repo {
        Some(repo) => {
            if text::same_text(repo, namespace) {
                aur.push(target.pkg.clone());
            } else {
                custom.push((repo.clone(), target.pkg.clone()));
            }
        },
        None => {},
    }
}

fn package_names(pkgs: &Vec<Package>) -> (names: Vec<String>)
    ensures
        text::views(names@) == text::views(pkgs@).map_values(|p: PackageView| p.name),
{
    let mut names: Vec<String> = Vec::new();
    let mut i: usize = 0;
    while i < pkgs.len()
        invariant
            i <= pkgs@.len(),
            text::views(names@) =~= text::views(pkgs@).map_values(
                |p: PackageView| p.name,
            ).take(i as int),
        decreases pkgs@.len() - i,
    {
        names.push(pkgs[i].name.clone());
        i += 1;
    }
    names
}

/// Upgrades everything.
pub fn take_all(config: &Config, c: &Candidates) -> (upgrades: Upgrades)
    requires
        forall|i: int| 0 <= i < c.devel@.len() ==> (#[trigger] c.devel@[i]).repo is Some,
    ensures
        upgrades@ == all_of(config.aur_namespace@, c@),
{
    let ghost namespace = config.aur_namespace@;
    let ghost names = c@.aur.map_values(|u: AurUpdateView| u.remote_name);
    let ghost pairs = c@.pkgbuild.map_values(|u: PkgbuildUpdateView| (u.repo, u.local_name));
    let mut aur_keep: Vec<String> = Vec::new();
    let mut pkgbuild_keep: Vec<(String, String)> = Vec::new();
    let mut i: usize = 0;
    while i < c.aur.len()
        invariant
            names == c@.aur.map_values(|u: AurUpdateView| u.remote_name),
            i <= c.aur@.len(),
            text::views(aur_keep@) =~= names.take(i as int),
        decreases c.aur@.len() - i,
    {
        aur_keep.push(c.aur[i].remote_name.clone());
        i += 1;
    }
    i = 0;
    while i < c.pkgbuild.len()
        invariant
            pairs == c@.pkgbuild.map_values(|u: PkgbuildUpdateView| (u.repo, u.local_name)),
            i <= c.pkgbuild@.len(),
            text::views(pkgbuild_keep@) =~= pairs.take(i as int),
        decreases c.pkgbuild@.len() - i,
    {
        pkgbuild_keep.push((c.pkgbuild[i].repo.clone(), c.pkgbuild[i].local_name.clone()));
        i += 1;
    }
    i = 0;
    proof {
        reveal(Seq::filter);
        assert(aur_devel(namespace, c@.devel.take(0)) =~= Seq::empty());
        assert(custom_devel(namespace, c@.devel.take(0)) =~= Seq::empty());
    }
    while i < c.devel.len()
        invariant
            namespace == config.aur_namespace@,
            forall|i: int| 0 <= i < c.devel@.len() ==> (#[trigger] c.devel@[i]).repo is Some,
            i <= c.devel@.len(),
            text::views(aur_keep@) =~= names + aur_devel(namespace, c@.devel.take(i as int)),
            text::views(pkgbuild_keep@) =~= pairs + custom_devel(
                namespace,
                c@.devel.take(i as int),
            ),
        decreases c.devel@.len() - i,
    {
        proof {
            assert(c@.devel[i as int] == c.devel@[i as int]@);
            assert(c@.devel.take(i + 1) =~= c@.devel.take(i as int).push(c@.devel[i as int]));
            lemma_devel_push(namespace, c@.devel.take(i as int), c@.devel[i as int]);
        }
        add_devel(&config.aur_namespace, &c.devel[i], &mut aur_keep, &mut pkgbuild_keep);
        i += 1;
    }
    proof {
        assert(c@.devel.take(i as int) =~= c@.devel);
    }
    let upgrades = Upgrades {
        aur_repos: aur_repos_of(&c.aur),
        pkgbuild_keep,
        repo_keep: package_names(&c.repo),
        repo_skip: Vec::new(),
        aur_keep,
        devel: devel_names(&c.devel),
    };
    assert(upgrades@ =~= all_of(namespace, c@));
    upgrades
}

/// Which upgrades stay: all of them when the answer is empty, else those that it
/// does not exclude.
pub open spec fn kept(input: Seq<char>, excluded: Seq<bool>) -> Seq<bool> {
    excluded.map_values(|e: bool| input.len() == 0 || !e)
}

/// Applies the answer `input` to the menu of the upgrades `c`. For each entry of the
/// menu, from top to bottom, `excluded` says whether the answer names it.
pub fn choose_upgrades(
    config: &Config,
    c: &Candidates,
    input: &str,
    excluded: &Vec<bool>,
) -> (upgrades: Upgrades)
    requires
        excluded@.len() == c@.count(),
        forall|i: int|
            0 <= i < c.devel@.len() && kept(input@, excluded@)[c.repo@.len() + c.aur@.len() + i]
                ==> (#[trigger] c.devel@[i]).repo is Some,
    ensures
        upgrades@ == chosen(config.aur_namespace@, c@, kept(input@, excluded@)),
{
    let ghost namespace = config.aur_namespace@;
    let ghost keep = kept(input@, excluded@);
    let ghost keep_aur = keep.skip(c.repo@.len() as int);
    let ghost keep_devel = keep_aur.skip(c.aur@.len() as int);
    let ghost keep_pkgbuild = keep_devel.skip(c.devel@.len() as int);
    let ghost skip = keep.map_values(|k: bool| !k);
    let ghost repo = c@.repo.map_values(|p: PackageView| p.name);
    let ghost names = c@.aur.map_values(|u: AurUpdateView| u.local_name);
    let ghost pairs = c@.pkgbuild.map_values(|u: PkgbuildUpdateView| (u.repo, u.local_name));
    let everything = input.is_empty();
    // There are as many marks as upgrades, so the place of each fits in a `usize`.
    let _total: usize = excluded.len();
    let mut repo_keep: Vec<String> = Vec::new();
    let mut repo_skip: Vec<String> = Vec::new();
    let mut aur_keep: Vec<String> = Vec::new();
    let mut pkgbuild_keep: Vec<(String, String)> = Vec::new();
    let mut i: usize = 0;
    while i < c.repo.len()
        invariant
            excluded@.len() == c@.count(),
            _total == excluded@.len(),
            everything == (input@.len() == 0),
            keep == kept(input@, excluded@),
            skip == keep.map_values(|k: bool| !k),
            repo == c@.repo.map_values(|p: PackageView| p.name),
            i <= c.repo@.len(),
            text::views(repo_keep@) =~= picked(repo.take(i as int), keep),
            text::views(repo_skip@) =~= picked(repo.take(i as int), skip),
        decreases c.repo@.len() - i,
    {
        proof {
            assert(repo.take(i + 1).drop_last() =~= repo.take(i as int));
        }
        if everything || !excluded[i] {
            repo_keep.push(c.repo[i].name.clone());
        } else {
            repo_skip.push(c.repo[i].name.clone());
        }
        i += 1;
    }
    i = 0;
    while i < c.aur.len()
        invariant
            excluded@.len() == c@.count(),
            _total == excluded@.len(),
            everything == (input@.len() == 0),
            keep == kept(input@, excluded@),
            keep_aur == keep.skip(c.repo@.len() as int),
            names == c@.aur.map_values(|u: AurUpdateView| u.local_name),
            i <= c.aur@.len(),
            text::views(aur_keep@) =~= picked(names.take(i as int), keep_aur),
        decreases c.aur@.len() - i,
    {
        proof {
            assert(names.take(i + 1).drop_last() =~= names.take(i as int));
        }
        if everything || !excluded[c.repo.len() + i] {
            aur_keep.push(c.aur[i].local_name.clone());
        }
        i += 1;
    }
    i = 0;
    proof {
        assert(names.take(c.aur@.len() as int) =~= names);
        reveal(Seq::filter);
        assert(aur_devel(namespace, picked(c@.devel.take(0), keep_devel)) =~= Seq::empty());
        assert(custom_devel(namespace, picked(c@.devel.take(0), keep_devel)) =~= Seq::empty());
    }
    while i < c.devel.len()
        invariant
            excluded@.len() == c@.count(),
            _total == excluded@.len(),
            everything == (input@.len() == 0),
            namespace == config.aur_namespace@,
            keep == kept(input@, excluded@),
            keep_aur == keep.skip(c.repo@.len() as int),
            keep_devel == keep_aur.skip(c.aur@.len() as int),
            forall|i: int|
                0 <= i < c.devel@.len() && keep[c.repo@.len() + c.aur@.len() + i] ==> (
                #[trigger] c.devel@[i]).repo is Some,
            i <= c.devel@.len(),
            text::views(aur_keep@) =~= picked(names, keep_aur) + aur_devel(
                namespace,
                picked(c@.devel.take(i as int), keep_devel),
            ),
            text::views(pkgbuild_keep@) =~= custom_devel(
                namespace,
                picked(c@.devel.take(i as int), keep_devel),
            ),
        decreases c.devel@.len() - i,
    {
        proof {
            assert(c@.devel[i as int] == c.devel@[i as int]@);
            assert(c@.devel.take(i + 1).drop_last() =~= c@.devel.take(i as int));
            lemma_devel_push(
                namespace,
                picked(c@.devel.take(i as int), keep_devel),
                c@.devel[i as int],
            );
        }
        if everything || !excluded[c.repo.len() + c.aur.len() + i] {
            add_devel(&config.aur_namespace, &c.devel[i], &mut aur_keep, &mut pkgbuild_keep);
        }
        i += 1;
    }
    i = 0;
    let ghost devel = custom_devel(namespace, picked(c@.devel, keep_devel));
    proof {
        assert(c@.devel.take(c.devel@.len() as int) =~= c@.devel);
    }
    while i < c.pkgbuild.len()
        invariant
            excluded@.len() == c@.count(),
            _total == excluded@.len(),
            everything == (input@.len() == 0),
            keep == kept(input@, excluded@),
            keep_aur == keep.skip(c.repo@.len() as int),
            keep_devel == keep_aur.skip(c.aur@.len() as int),
            keep_pkgbuild == keep_devel.skip(c.devel@.len() as int),
            pairs == c@.pkgbuild.map_values(|u: PkgbuildUpdateView| (u.repo, u.local_name)),
            i <= c.pkgbuild@.len(),
            text::views(pkgbuild_keep@) =~= devel + picked(pairs.take(i as int), keep_pkgbuild),
        decreases c.pkgbuild@.len() - i,
    {
        proof {
            assert(pairs.take(i + 1).drop_last() =~= pairs.take(i as int));
        }
        if everything || !excluded[c.repo.len() + c.aur.len() + c.devel.len() + i] {
            pkgbuild_keep.push((c.pkgbuild[i].repo.clone(), c.pkgbuild[i].local_name.clone()));
        }
        i += 1;
    }
    let upgrades = Upgrades {
        aur_repos: aur_repos_of(&c.aur),
        pkgbuild_keep,
        repo_keep,
        repo_skip,
        aur_keep,
        devel: devel_names(&c.devel),
    };
    proof {
        assert(repo.take(c.repo@.len() as int) =~= repo);
        assert(pairs.take(c.pkgbuild@.len() as int) =~= pairs);
        assert(upgrades@ =~= chosen(namespace, c@, keep));
    }
    upgrades
}

/// What the databases and the network report.
pub struct Found {
    /// The packages that a system upgrade would install.
    pub repo: Vec<Package>,
    /// The sync repositories, in order.
    pub repo_dbs: Vec<String>,
    pub aur: Vec<AurUpdate>,
    /// The development packages that have new commits.
    pub devel: Vec<Target>,
    pub pkgbuild: Vec<PkgbuildUpdate>,
}

#[verifier::ext_equal]
pub struct FoundView {
    pub repo: Seq<PackageView>,
    pub repo_dbs: Seq<Seq<char>>,
    pub aur: Seq<AurUpdateView>,
    pub devel: Seq<TargetView>,
    pub pkgbuild: Seq<PkgbuildUpdateView>,
}

impl View for Found {
    type V = FoundView;

    open spec fn view(&self) -> FoundView {
        FoundView {
            repo: text::views(self.repo@),
            repo_dbs: text::views(self.repo_dbs@),
            aur: text::views(self.aur@),
            devel: text::views(self.devel@),
            pkgbuild: text::views(self.pkgbuild@),
        }
    }
}

/// What is to be done next.
pub enum Next {
    /// The upgrade stands.
    Done(Upgrades),
    /// The user chooses among these.
    Ask(Candidates),
}

pub enum NextView {
    Done(UpgradesView),
    Ask(CandidatesView),
}

impl View for Next {
    type V = NextView;

    open spec fn view(&self) -> NextView {
        match self {
            Next::Done(upgrades) => NextView::Done(upgrades@),
            Next::Ask(c) => NextView::Ask(c@),
        }
    }
}

/// The AUR upgrades that are held back, and what is to be done next.
pub struct Plan {
    pub held_back: Vec<HeldBack>,
    pub next: Next,
}

/// The upgrades that are open to choice at time `now`: packages of the sync
/// repositories if they are upgraded along; AUR updates that neither a development
/// package stands in for nor the cooldown holds back; development packages in order,
/// each once; and all from PKGBUILD repositories.
pub open spec fn candidates(config: Config, found: FoundView, now: int) -> CandidatesView {
    CandidatesView {
        repo: if config.mode.repo && config.combined_upgrade {
            repo::listed(found.repo_dbs, found.repo)
        } else {
            Seq::empty()
        },
        aur: cooldown::ready(
            without_devel(found.aur, found.devel),
            now,
            config.aur_cooldown as int,
            text::views(config.cooldown_skip@),
        ),
        devel: package::ordered(found.devel),
        pkgbuild: found.pkgbuild,
    }
}

/// What is reported at time `now` of the AUR updates that are held back.
pub open spec fn reports(config: Config, found: FoundView, now: int) -> Seq<HeldBackView> {
    cooldown::notices(
        without_devel(found.aur, found.devel),
        now,
        config.aur_cooldown as int,
        text::views(config.cooldown_skip@),
    )
}

/// What is to be done with the upgrades `c`: nothing if there are none; else the user
/// chooses, if there is to be a menu; else all are taken.
pub open spec fn next_step(config: Config, c: CandidatesView) -> NextView {
    if c.count() == 0 {
        NextView::Done(UpgradesView::nothing())
    } else if !config.upgrade_menu {
        NextView::Done(all_of(config.aur_namespace@, c))
    } else {
        NextView::Ask(c)
    }
}

/// Puts together the upgrades that are open to choice at time `now`.
pub fn get_upgrades_at(config: &Config, found: Found, now: i64) -> (plan: Plan)
    requires
        !config.upgrade_menu ==> forall|i: int|
            0 <= i < found.devel@.len() ==> (#[trigger] found.devel@[i]).repo is Some,
    ensures
        text::views(plan.held_back@) == reports(*config, found@, now as int),
        plan.next@ == next_step(*config, candidates(*config, found@, now as int)),
{
    let mut aur = found.aur;
    drop_devel(&mut aur, &found.devel);
    let held_back = cooldown::cooldown_filter_at(config, now, &mut aur);
    let next = plan_next(config, found.repo, &found.repo_dbs, aur, found.devel, found.pkgbuild);
    Plan { held_back, next }
}

fn plan_next(
    config: &Config,
    repo: Vec<Package>,
    repo_dbs: &Vec<String>,
    aur: Vec<AurUpdate>,
    devel: Vec<Target>,
    pkgbuild: Vec<PkgbuildUpdate>,
) -> (next: Next)
    requires
        !config.upgrade_menu ==> forall|i: int|
            0 <= i < devel@.len() ==> (#[trigger] devel@[i]).repo is Some,
    ensures
        next@ == next_step(
            *config,
            CandidatesView {
                repo: if config.mode.repo && config.combined_upgrade {
                    repo::listed(text::views(repo_dbs@), text::views(repo@))
                } else {
                    Seq::empty()
                },
                aur: text::views(aur@),
                devel: package::ordered(text::views(devel@)),
                pkgbuild: text::views(pkgbuild@),
            },
        ),
{
    let sorted = package::sort_dedup(devel);
    let repo_list = if config.lists_repo_upgrades() {
        repo::repo_upgrades(repo, repo_dbs)
    } else {
        let none: Vec<Package> = Vec::new();
        assert(text::views(none@) =~= Seq::empty());
        none
    };
    let c = Candidates { repo: repo_list, aur, devel: sorted, pkgbuild };
    if c.devel.len() == 0 && c.aur.len() == 0 && c.repo.len() == 0 && c.pkgbuild.len() == 0 {
        return Next::Done(Upgrades::default());
    }
    if !config.upgrade_menu {
        proof {
            assert forall|i: int| 0 <= i < c.devel@.len() implies (
            #[trigger] c.devel@[i]).repo is Some by {
                let t = text::views(c.devel@)[i];
                assert(text::views(c.devel@).contains(t));
                assert(text::views(c.devel@).to_set().contains(t));
                assert(text::views(devel@).to_set().contains(t));
                let j = choose|j: int|
                    0 <= j < text::views(devel@).len() && text::views(devel@)[j] == t;
                assert(devel@[j].repo is Some);
            }
        }
        return Next::Done(take_all(config, &c));
    }
    Next::Ask(c)
}

/// Puts together the upgrades that are open to choice now, by the clock of the
/// machine.
pub fn get_upgrades(config: &Config, found: Found) -> (plan: Plan)
    requires
        !config.upgrade_menu ==> forall|i: int|
            0 <= i < found.devel@.len() ==> (#[trigger] found.devel@[i]).repo is Some,
    ensures
        config.aur_cooldown == 0 ==> plan.held_back@.len() == 0 && plan.next@ == next_step(
            *config,
            candidates(*config, found@, 0),
        ),
        exists|now: i64|
            {
                &&& config.aur_cooldown != 0 ==> cooldown::clock_reads(now)
                &&& text::views(plan.held_back@) == #[trigger] reports(
                    *config,
                    found@,
                    now as int,
                )
                &&& plan.next@ == next_step(*config, candidates(*config, found@, now as int))
            },
{
    let ghost devel = found@.devel;
    let ghost all = found@.aur;
    let ghost skip = text::views(config.cooldown_skip@);
    let ghost window = config.aur_cooldown as int;
    let mut aur = found.aur;
    drop_devel(&mut aur, &found.devel);
    let held_back = cooldown::cooldown_filter(config, &mut aur);
    proof {
        let now = choose|now: i64|
            {
                &&& config.aur_cooldown != 0 ==> cooldown::clock_reads(now)
                &&& text::views(aur@) == #[trigger] cooldown::ready(
                    without_devel(all, devel),
                    now as int,
                    window,
                    skip,
                )
                &&& text::views(held_back@) == cooldown::notices(
                    without_devel(all, devel),
                    now as int,
                    window,
                    skip,
                )
            };
        assert(text::views(held_back@) == reports(*config, found@, now as int));
        if config.aur_cooldown == 0 {
            cooldown::law_cooldown_of_zero_holds_nothing(without_devel(all, devel), 0, skip);
        }
    }
    let next = plan_next(config, found.repo, &found.repo_dbs, aur, found.devel, found.pkgbuild);
    Plan { held_back, next }
}

/// An AUR update is open to choice exactly when no development package stands in for
/// it and the cooldown does not hold it back.
pub proof fn law_aur_candidates(config: Config, found: FoundView, now: int, u: AurUpdateView)
    ensures
        candidates(config, found, now).aur.contains(u) <==> {
            &&& found.aur.contains(u)
            &&& !names_of(found.devel).contains(u.remote_name)
            &&& !cooldown::held(
                u,
                now,
                config.aur_cooldown as int,
                text::views(config.cooldown_skip@),
            )
        },
{
    let skip = text::views(config.cooldown_skip@);
    let window = config.aur_cooldown as int;
    let rest = without_devel(found.aur, found.devel);
    let stays = |u: AurUpdateView| !names_of(found.devel).contains(u.remote_name);
    cooldown::law_held_or_ready(rest, now, window, skip);
    if rest.contains(u) {
        seqs::lemma_filter_from(found.aur, stays, u);
    }
    if found.aur.contains(u) && stays(u) {
        let i = choose|i: int| 0 <= i < found.aur.len() && found.aur[i] == u;
        found.aur.lemma_filter_contains(stays, i);
    }
}

/// An update that is open to choice stays so as time passes.
pub proof fn law_waiting_keeps_candidates(
    config: Config,
    found: FoundView,
    now: int,
    later: int,
    u: AurUpdateView,
)
    requires
        now <= later,
        candidates(config, found, now).aur.contains(u),
    ensures
        candidates(config, found, later).aur.contains(u),
{
    law_aur_candidates(config, found, now, u);
    law_aur_candidates(config, found, later, u);
    cooldown::law_waiting_shortens_cooldown(
        u.last_modified,
        now,
        later,
        config.aur_cooldown as int,
    );
}

/// With a cooldown of 0 the time makes no difference and nothing is reported.
pub proof fn law_no_cooldown_no_clock(config: Config, found: FoundView, now: int, later: int)
    requires
        config.aur_cooldown == 0,
    ensures
        candidates(config, found, now) == candidates(config, found, later),
        reports(config, found, now) == Seq::<HeldBackView>::empty(),
{
    let skip = text::views(config.cooldown_skip@);
    let rest = without_devel(found.aur, found.devel);
    cooldown::law_cooldown_of_zero_holds_nothing(rest, now, skip);
    cooldown::law_cooldown_of_zero_holds_nothing(rest, later, skip);
}

proof fn lemma_names_by_content(s: Seq<TargetView>, t: Seq<TargetView>)
    requires
        s.to_set() == t.to_set(),
    ensures
        names_of(s) == names_of(t),
{
    let f = |t: TargetView| t.pkg;
    assert forall|x: Seq<char>| names_of(s).contains(x) implies names_of(t).contains(x) by {
        let i = choose|i: int| 0 <= i < s.map_values(f).len() && s.map_values(f)[i] == x;
        assert(s.to_set().contains(s[i]));
        let j = choose|j: int| 0 <= j < t.len() && t[j] == s[i];
        assert(t.map_values(f)[j] == x);
    }
    assert forall|x: Seq<char>| names_of(t).contains(x) implies names_of(s).contains(x) by {
        let i = choose|i: int| 0 <= i < t.map_values(f).len() && t.map_values(f)[i] == x;
        assert(t.to_set().contains(t[i]));
        let j = choose|j: int| 0 <= j < s.len() && s[j] == t[i];
        assert(s.map_values(f)[j] == x);
    }
    assert(names_of(s) =~= names_of(t));
}

/// Neither the order in which development packages are found nor how often one is
/// found makes a difference.
pub proof fn law_devel_by_content(config: Config, a: FoundView, b: FoundView, now: int)
    requires
        a.devel.to_set() == b.devel.to_set(),
        a == (FoundView { devel: a.devel, ..b }),
    ensures
        candidates(config, a, now) == candidates(config, b, now),
        reports(config, a, now) == reports(config, b, now),
{
    package::law_ordered_by_content(a.devel, b.devel);
    lemma_names_by_content(a.devel, b.devel);
}

/// Each development package that was found is open to choice once, and no other.
pub proof fn law_devel_candidates(config: Config, found: FoundView, now: int)
    ensures
        candidates(config, found, now).devel.no_duplicates(),
        candidates(config, found, now).devel.to_set() == found.devel.to_set(),
        names_of(candidates(config, found, now).devel) == names_of(found.devel),
{
    let devel = package::ordered(found.devel);
    package::law_ordered(found.devel);
    assert forall|i: int, j: int| 0 <= i < devel.len() && 0 <= j < devel.len() && i
        != j implies devel[i] != devel[j] by {
        package::lemma_target_lt_irreflexive(devel[i]);
        if i < j {
            assert(package::target_lt(devel[i], devel[j]));
        } else {
            assert(package::target_lt(devel[j], devel[i]));
        }
    }
    lemma_names_by_content(devel, found.devel);
}

/// A package of a sync repository is open to choice exactly when such packages are
/// upgraded along and it comes from one of the repositories.
pub proof fn law_repo_candidates(config: Config, found: FoundView, now: int, p: PackageView)
    ensures
        candidates(config, found, now).repo.contains(p) <==> {
            &&& config.mode.repo
            &&& config.combined_upgrade
            &&& found.repo.contains(p)
            &&& found.repo_dbs.contains(p.db)
        },
{
    repo::law_listed(found.repo_dbs, found.repo);
    repo::law_lists_the_repositories(
        found.repo_dbs,
        found.repo,
        repo::listed(found.repo_dbs, found.repo),
    );
    assert(repo::listed(found.repo_dbs, found.repo).contains(p) <==> found.repo.contains(p)
        && found.repo_dbs.contains(p.db));
}

/// Without upgrades there is nothing to do, whether or not there is a menu.
pub proof fn law_nothing_to_do(namespace: Seq<char>, c: CandidatesView, keep: Seq<bool>)
    requires
        c.count() == 0,
    ensures
        all_of(namespace, c) == UpgradesView::nothing(),
        chosen(namespace, c, keep) == UpgradesView::nothing(),
{
    reveal(Seq::filter);
    assert(names_of(c.devel) =~= Set::empty());
    assert(all_of(namespace, c) =~= UpgradesView::nothing());
    assert(chosen(namespace, c, keep) =~= UpgradesView::nothing());
}

/// All items stay when all are marked and none when none is, and each item is either
/// among those that `keep` marks or among the others.
pub proof fn law_picked<A>(s: Seq<A>, keep: Seq<bool>)
    requires
        keep.len() >= s.len(),
    ensures
        (forall|i: int| 0 <= i < s.len() ==> #[trigger] keep[i]) ==> picked(s, keep) == s,
        (forall|i: int| 0 <= i < s.len() ==> !#[trigger] keep[i]) ==> picked(s, keep)
            == Seq::<A>::empty(),
        picked(s, keep).to_multiset().add(
            picked(s, keep.map_values(|k: bool| !k)).to_multiset(),
        ) == s.to_multiset(),
    decreases s.len(),
{
    broadcast use vstd::seq_lib::group_to_multiset_ensures;

    let skip = keep.map_values(|k: bool| !k);
    if s.len() == 0 {
        assert(picked(s, keep) =~= Seq::empty());
        assert(picked(s, keep).to_multiset().add(picked(s, skip).to_multiset())
            =~= s.to_multiset());
    } else {
        let r = s.drop_last();
        law_picked(r, keep);
        assert(s =~= r.push(s.last()));
        assert(skip[s.len() - 1] == !keep[s.len() - 1]);
        assert(picked(s, keep).to_multiset().add(picked(s, skip).to_multiset())
            =~= s.to_multiset());
    }
}

/// Each package of a sync repository is either kept or left out.
pub proof fn law_repo_kept_or_left_out(namespace: Seq<char>, c: CandidatesView, keep: Seq<bool>)
    requires
        keep.len() == c.count(),
    ensures
        chosen(namespace, c, keep).repo_keep.to_multiset().add(
            chosen(namespace, c, keep).repo_skip.to_multiset(),
        ) == c.repo.map_values(|p: PackageView| p.name).to_multiset(),
{
    law_picked(c.repo.map_values(|p: PackageView| p.name), keep);
}

/// An empty answer leaves nothing out.
pub proof fn law_empty_answer_keeps_all(
    namespace: Seq<char>,
    c: CandidatesView,
    excluded: Seq<bool>,
)
    requires
        excluded.len() == c.count(),
    ensures
        chosen(namespace, c, kept(Seq::empty(), excluded)) == (UpgradesView {
            aur_repos: repos_of(c.aur),
            pkgbuild_keep: custom_devel(namespace, c.devel) + c.pkgbuild.map_values(
                |u: PkgbuildUpdateView| (u.repo, u.local_name),
            ),
            repo_keep: c.repo.map_values(|p: PackageView| p.name),
            repo_skip: Seq::empty(),
            aur_keep: c.aur.map_values(|u: AurUpdateView| u.local_name) + aur_devel(
                namespace,
                c.devel,
            ),
            devel: names_of(c.devel),
        }),
{
    let keep = kept(Seq::empty(), excluded);
    let aur_keep = keep.skip(c.repo.len() as int);
    let devel_keep = aur_keep.skip(c.aur.len() as int);
    let pkgbuild_keep = devel_keep.skip(c.devel.len() as int);
    law_picked(c.repo.map_values(|p: PackageView| p.name), keep);
    law_picked(
        c.repo.map_values(|p: PackageView| p.name),
        keep.map_values(|k: bool| !k),
    );
    law_picked(c.aur.map_values(|u: AurUpdateView| u.local_name), aur_keep);
    law_picked(c.devel, devel_keep);
    law_picked(
        c.pkgbuild.map_values(|u: PkgbuildUpdateView| (u.repo, u.local_name)),
        pkgbuild_keep,
    );
}

/// An answer that names every entry leaves everything out.
pub proof fn law_all_named_leaves_all_out(
    namespace: Seq<char>,
    c: CandidatesView,
    input: Seq<char>,
    excluded: Seq<bool>,
)
    requires
        excluded.len() == c.count(),
        input.len() > 0,
        forall|i: int| 0 <= i < excluded.len() ==> #[trigger] excluded[i],
    ensures
        ({
            let u = chosen(namespace, c, kept(input, excluded));
            &&& u.repo_keep == Seq::<Seq<char>>::empty()
            &&& u.repo_skip == c.repo.map_values(|p: PackageView| p.name)
            &&& u.aur_keep == Seq::<Seq<char>>::empty()
            &&& u.pkgbuild_keep == Seq::<(Seq<char>, Seq<char>)>::empty()
        }),
{
    let keep = kept(input, excluded);
    let aur_keep = keep.skip(c.repo.len() as int);
    let devel_keep = aur_keep.skip(c.aur.len() as int);
    let pkgbuild_keep = devel_keep.skip(c.devel.len() as int);
    law_picked(c.repo.map_values(|p: PackageView| p.name), keep);
    law_picked(
        c.repo.map_values(|p: PackageView| p.name),
        keep.map_values(|k: bool| !k),
    );
    law_picked(c.aur.map_values(|u: AurUpdateView| u.local_name), aur_keep);
    law_picked(c.devel, devel_keep);
    law_picked(
        c.pkgbuild.map_values(|u: PkgbuildUpdateView| (u.repo, u.local_name)),
        pkgbuild_keep,
    );
    reveal(Seq::filter);
    let u = chosen(namespace, c, keep);
    assert(u.aur_keep =~= Seq::<Seq<char>>::empty());
    assert(u.pkgbuild_keep =~= Seq::<(Seq<char>, Seq<char>)>::empty());
}

/// The databases are named of the AUR packages that one holds, and of no others; the
/// name is that of a database which holds the package.
pub proof fn law_aur_repos(aur: Seq<AurUpdateView>)
    ensures
        forall|name: Seq<char>| #[trigger]
            repos_of(aur).contains_key(name) <==> exists|i: int|
                0 <= i < aur.len() && (#[trigger] aur[i]).local_name == name
                    && aur[i].local_db is Some,
        forall|name: Seq<char>| #[trigger]
            repos_of(aur).contains_key(name) ==> exists|i: int|
                0 <= i < aur.len() && (#[trigger] aur[i]).local_name == name && aur[i].local_db
                    == Some(repos_of(aur)[name]),
    decreases aur.len(),
{
    if aur.len() > 0 {
        let r = aur.drop_last();
        law_aur_repos(r);
        let n = aur.len() - 1;
        assert forall|name: Seq<char>| #[trigger] repos_of(aur).contains_key(name) implies exists|
            i: int,
        |
            0 <= i < aur.len() && (#[trigger] aur[i]).local_name == name && aur[i].local_db == Some(
                repos_of(aur)[name],
            ) by {
            if aur[n].local_name == name && aur[n].local_db is Some {
                assert(aur[n].local_db == Some(repos_of(aur)[name]));
            } else {
                assert(repos_of(r).contains_key(name));
                let i = choose|i: int|
                    0 <= i < r.len() && (#[trigger] r[i]).local_name == name && r[i].local_db
                        == Some(repos_of(r)[name]);
                assert(aur[i] == r[i]);
            }
        }
        assert forall|name: Seq<char>| #[trigger] repos_of(aur).contains_key(name) <==> exists|
            i: int,
        |
            0 <= i < aur.len() && (#[trigger] aur[i]).local_name == name
                && aur[i].local_db is Some by {
            if exists|i: int|
                0 <= i < aur.len() && (#[trigger] aur[i]).local_name == name
                    && aur[i].local_db is Some {
                let i = choose|i: int|
                    0 <= i < aur.len() && (#[trigger] aur[i]).local_name == name
                        && aur[i].local_db is Some;
                if i < n {
                    assert(r[i] == aur[i]);
                    assert(repos_of(r).contains_key(name));
                }
            }
        }
    }
}

/// Each development package that is upgraded goes to the AUR or to a PKGBUILD
/// repository.
pub proof fn law_devel_goes_one_way(namespace: Seq<char>, devel: Seq<TargetView>)
    ensures
        aur_devel(namespace, devel).len() + custom_devel(namespace, devel).len() == devel.len(),
    decreases devel.len(),
{
    if devel.len() == 0 {
        reveal(Seq::filter);
    } else {
        law_devel_goes_one_way(namespace, devel.drop_last());
        assert(devel =~= devel.drop_last().push(devel.last()));
        lemma_devel_push(namespace, devel.drop_last(), devel.last());
    }
}

proof fn lemma_picked_from<A>(s: Seq<A>, keep: Seq<bool>, x: A)
    requires
        picked(s, keep).contains(x),
    ensures
        s.contains(x),
    decreases s.len(),
{
    if s.len() > 0 {
        let r = s.drop_last();
        let i = choose|i: int| 0 <= i < picked(s, keep).len() && picked(s, keep)[i] == x;
        if i < picked(r, keep).len() {
            assert(picked(r, keep)[i] == x);
            lemma_picked_from(r, keep, x);
            let j = choose|j: int| 0 <= j < r.len() && r[j] == x;
            assert(s[j] == x);
        } else {
            assert(s[s.len() - 1] == x);
        }
    }
}

proof fn lemma_aur_devel_from(namespace: Seq<char>, devel: Seq<TargetView>, name: Seq<char>)
    requires
        aur_devel(namespace, devel).contains(name),
    ensures
        names_of(devel).contains(name),
{
    let f = |t: TargetView| t.repo == Some(namespace);
    let g = |t: TargetView| t.pkg;
    let i = choose|i: int|
        0 <= i < aur_devel(namespace, devel).len() && aur_devel(namespace, devel)[i] == name;
    let t = devel.filter(f)[i];
    assert(devel.filter(f).contains(t));
    seqs::lemma_filter_from(devel, f, t);
    let j = choose|j: int| 0 <= j < devel.len() && devel[j] == t;
    assert(devel.map_values(g)[j] == name);
}

proof fn lemma_names_picked(devel: Seq<TargetView>, keep: Seq<bool>, name: Seq<char>)
    requires
        names_of(picked(devel, keep)).contains(name),
    ensures
        names_of(devel).contains(name),
{
    let g = |t: TargetView| t.pkg;
    let p = picked(devel, keep);
    let i = choose|i: int| 0 <= i < p.map_values(g).len() && p.map_values(g)[i] == name;
    assert(p.contains(p[i]));
    lemma_picked_from(devel, keep, p[i]);
    let j = choose|j: int| 0 <= j < devel.len() && devel[j] == p[i];
    assert(devel.map_values(g)[j] == name);
}

/// A package that the cooldown holds back stays at its version: when everything is
/// taken, no AUR upgrade has its name, unless new commits were found for it.
pub proof fn law_held_back_is_not_taken(
    config: Config,
    found: FoundView,
    now: int,
    name: Seq<char>,
)
    requires
        forall|i: int|
            0 <= i < found.aur.len() && (#[trigger] found.aur[i]).remote_name == name
                ==> cooldown::held(
                found.aur[i],
                now,
                config.aur_cooldown as int,
                text::views(config.cooldown_skip@),
            ),
        !names_of(found.devel).contains(name),
    ensures
        !all_of(config.aur_namespace@, candidates(config, found, now)).aur_keep.contains(name),
{
    let c = candidates(config, found, now);
    let namespace = config.aur_namespace@;
    let f = |u: AurUpdateView| u.remote_name;
    let keep = all_of(namespace, c).aur_keep;
    if keep.contains(name) {
        let i = choose|i: int| 0 <= i < keep.len() && keep[i] == name;
        if i < c.aur.len() {
            let u = c.aur[i];
            assert(c.aur.contains(u));
            law_aur_candidates(config, found, now, u);
            let j = choose|j: int| 0 <= j < found.aur.len() && found.aur[j] == u;
            assert(found.aur[j].remote_name == name);
        } else {
            assert(aur_devel(namespace, c.devel)[i - c.aur.len()] == name);
            lemma_aur_devel_from(namespace, c.devel, name);
            law_devel_candidates(config, found, now);
        }
    }
}

/// A package that the cooldown holds back stays at its version: whatever the user
/// chooses, no AUR upgrade has its name, unless new commits were found for it.
pub proof fn law_held_back_is_not_chosen(
    config: Config,
    found: FoundView,
    now: int,
    name: Seq<char>,
    keep: Seq<bool>,
)
    requires
        forall|i: int|
            0 <= i < found.aur.len() && (#[trigger] found.aur[i]).local_name == name
                ==> cooldown::held(
                found.aur[i],
                now,
                config.aur_cooldown as int,
                text::views(config.cooldown_skip@),
            ),
        !names_of(found.devel).contains(name),
    ensures
        !chosen(config.aur_namespace@, candidates(config, found, now), keep).aur_keep.contains(
            name,
        ),
{
    let c = candidates(config, found, now);
    let namespace = config.aur_namespace@;
    let names = c.aur.map_values(|u: AurUpdateView| u.local_name);
    let aur_keep = keep.skip(c.repo.len() as int);
    let devel_keep = aur_keep.skip(c.aur.len() as int);
    let aur = picked(names, aur_keep);
    let devel = picked(c.devel, devel_keep);
    let all = chosen(namespace, c, keep).aur_keep;
    if all.contains(name) {
        let i = choose|i: int| 0 <= i < all.len() && all[i] == name;
        if i < aur.len() {
            assert(aur[i] == name);
            lemma_picked_from(names, aur_keep, name);
            let k = choose|k: int| 0 <= k < names.len() && names[k] == name;
            let u = c.aur[k];
            assert(c.aur.contains(u));
            law_aur_candidates(config, found, now, u);
            let j = choose|j: int| 0 <= j < found.aur.len() && found.aur[j] == u;
            assert(found.aur[j].local_name == name);
        } else {
            assert(aur_devel(namespace, devel)[i - aur.len()] == name);
            lemma_aur_devel_from(namespace, devel, name);
            lemma_names_picked(c.devel, devel_keep, name);
            law_devel_candidates(config, found, now);
        }
    }
}

/// A name is that of a development package exactly when one of the targets has it.
pub proof fn law_devel_names(devel: Seq<TargetView>, name: Seq<char>)
    ensures
        names_of(devel).contains(name) <==> exists|i: int|
            0 <= i < devel.len() && (#[trigger] devel[i]).pkg == name,
{
    let names = devel.map_values(|t: TargetView| t.pkg);
    if names_of(devel).contains(name) {
        let i = choose|i: int| 0 <= i < names.len() && names[i] == name;
        assert(devel[i].pkg == name);
    }
    if exists|i: int| 0 <= i < devel.len() && (#[trigger] devel[i]).pkg == name {
        let i = choose|i: int| 0 <= i < devel.len() && (#[trigger] devel[i]).pkg == name;
        assert(names[i] == name);
    }
}

/// Of the AUR packages of one name, the last that a database holds has its database
/// named; and no database is named where none holds such a package.
pub proof fn law_last_database_is_named(aur: Seq<AurUpdateView>, i: int)
    requires
        0 <= i < aur.len(),
        aur[i].local_db is Some,
        forall|j: int|
            i < j < aur.len() && (#[trigger] aur[j]).local_name == aur[i].local_name
                ==> aur[j].local_db is None,
    ensures
        repos_of(aur).contains_key(aur[i].local_name),
        repos_of(aur)[aur[i].local_name] == aur[i].local_db.unwrap(),
    decreases aur.len(),
{
    let n = aur.len() - 1;
    if i < n {
        let r = aur.drop_last();
        assert forall|j: int|
            i < j < r.len() && (#[trigger] r[j]).local_name == r[i].local_name implies r[j].local_db is None by {
            assert(aur[j] == r[j]);
        }
        law_last_database_is_named(r, i);
        assert(aur[n] == aur.last());
    }
}

/// The AUR updates that are open to choice are, in the order found, those whose name
/// no development package has and that are exceptions or as old as the cooldown, or
/// all of these without a cooldown.
pub proof fn law_aur_candidates_in_order(config: Config, found: FoundView, now: int)
    ensures
        candidates(config, found, now).aur == found.aur.filter(
            |u: AurUpdateView|
                {
                    &&& forall|i: int|
                        0 <= i < found.devel.len() ==> (#[trigger] found.devel[i]).pkg
                            != u.remote_name
                    &&& config.aur_cooldown == 0 || text::views(
                        config.cooldown_skip@,
                    ).contains(u.remote_name) || now - u.last_modified >= config.aur_cooldown
                        * 86400
                },
        ),
{
    let skip = text::views(config.cooldown_skip@);
    let window = config.aur_cooldown as int;
    let rest = without_devel(found.aur, found.devel);
    let stays = |u: AurUpdateView| !names_of(found.devel).contains(u.remote_name);
    let old = |u: AurUpdateView|
        window == 0 || skip.contains(u.remote_name) || now - u.last_modified >= window * 86400;
    let both = |u: AurUpdateView|
        {
            &&& forall|i: int|
                0 <= i < found.devel.len() ==> (#[trigger] found.devel[i]).pkg != u.remote_name
            &&& config.aur_cooldown == 0 || text::views(config.cooldown_skip@).contains(
                u.remote_name,
            ) || now - u.last_modified >= config.aur_cooldown * 86400
        };
    cooldown::law_filter_lets_old_through(rest, now, window, skip);
    assert forall|u: AurUpdateView| #[trigger] both(u) == (stays(u) && old(u)) by {
        law_devel_names(found.devel, u.remote_name);
    }
    seqs::lemma_filter_twice(found.aur, stays, old, both);
}

/// What is reported as held back are, in the order found, the AUR updates whose name
/// no development package has, that are no exceptions and younger than the cooldown.
pub proof fn law_reports_in_order(config: Config, found: FoundView, now: int)
    requires
        config.aur_cooldown > 0,
    ensures
        ({
            let young = found.aur.filter(
                |u: AurUpdateView|
                    {
                        &&& forall|i: int|
                            0 <= i < found.devel.len() ==> (#[trigger] found.devel[i]).pkg
                                != u.remote_name
                        &&& !text::views(config.cooldown_skip@).contains(u.remote_name)
                        &&& now - u.last_modified < config.aur_cooldown * 86400
                    },
            );
            let reported = reports(config, found, now);
            &&& reported.len() == young.len()
            &&& forall|i: int|
                0 <= i < young.len() ==> {
                    let r = #[trigger] reported[i];
                    let u = young[i];
                    &&& r.pkg == u.local_name
                    &&& r.old == u.local_version
                    &&& r.new == u.remote_version
                    &&& cooldown::days_left(u.last_modified, now, config.aur_cooldown as int)
                        == Some(r.days)
                }
        }),
{
    let skip = text::views(config.cooldown_skip@);
    let window = config.aur_cooldown as int;
    let rest = without_devel(found.aur, found.devel);
    let stays = |u: AurUpdateView| !names_of(found.devel).contains(u.remote_name);
    let fresh = |u: AurUpdateView|
        !skip.contains(u.remote_name) && now - u.last_modified < window * 86400;
    let both = |u: AurUpdateView|
        {
            &&& forall|i: int|
                0 <= i < found.devel.len() ==> (#[trigger] found.devel[i]).pkg != u.remote_name
            &&& !text::views(config.cooldown_skip@).contains(u.remote_name)
            &&& now - u.last_modified < config.aur_cooldown * 86400
        };
    cooldown::law_filter_reports_young(rest, now, window, skip);
    assert forall|u: AurUpdateView| #[trigger] both(u) == (stays(u) && fresh(u)) by {
        law_devel_names(found.devel, u.remote_name);
    }
    seqs::lemma_filter_twice(found.aur, stays, fresh, both);
    assert(rest.filter(fresh) == found.aur.filter(both));
}

/// The other upgrades that are open to choice: the packages of the sync repositories
/// as they are listed, if they are asked for and upgraded along, and none otherwise;
/// the development packages in order; and all updates from PKGBUILD repositories, as
/// they were found.
pub proof fn law_other_candidates(config: Config, found: FoundView, now: int)
    ensures
        ({
            let c = candidates(config, found, now);
            &&& config.mode.repo && config.combined_upgrade ==> c.repo == repo::listed(
                found.repo_dbs,
                found.repo,
            )
            &&& !config.mode.repo || !config.combined_upgrade ==> c.repo.len() == 0
            &&& c.devel == package::ordered(found.devel)
            &&& c.pkgbuild == found.pkgbuild
        }),
{
}

/// There is nothing to do exactly when there is no upgrade of any of the four kinds.
/// With any upgrade, whatever its kind, the user chooses among all of them if there
/// is to be a menu, and if not all of them are taken.
pub proof fn law_next_step(config: Config, c: CandidatesView)
    ensures
        c.repo.len() == 0 && c.aur.len() == 0 && c.devel.len() == 0 && c.pkgbuild.len() == 0
            ==> next_step(config, c) == NextView::Done(UpgradesView::nothing()),
        (c.repo.len() > 0 || c.aur.len() > 0 || c.devel.len() > 0 || c.pkgbuild.len() > 0)
            && config.upgrade_menu ==> next_step(config, c) == NextView::Ask(c),
        (c.repo.len() > 0 || c.aur.len() > 0 || c.devel.len() > 0 || c.pkgbuild.len() > 0)
            && !config.upgrade_menu ==> next_step(config, c) == NextView::Done(
            all_of(config.aur_namespace@, c),
        ),
{
}

/// Nothing is upgraded, left out or named.
pub proof fn law_nothing()
    ensures
        UpgradesView::nothing().repo_keep.len() == 0,
        UpgradesView::nothing().repo_skip.len() == 0,
        UpgradesView::nothing().aur_keep.len() == 0,
        UpgradesView::nothing().pkgbuild_keep.len() == 0,
        forall|name: Seq<char>| !#[trigger] UpgradesView::nothing().aur_repos.contains_key(name),
        forall|name: Seq<char>| !#[trigger] UpgradesView::nothing().devel.contains(name),
{
}

/// Development packages from the AUR are those whose repository is the AUR, by name;
/// the others are named with their repository. Both keep the order given.
pub proof fn law_devel_by_repository(namespace: Seq<char>, devel: Seq<TargetView>)
    ensures
        ({
            let aur = devel.filter(|t: TargetView| t.repo == Some(namespace));
            let custom = devel.filter(|t: TargetView| t.repo != Some(namespace));
            &&& aur_devel(namespace, devel).len() == aur.len()
            &&& forall|i: int|
                0 <= i < aur.len() ==> #[trigger] aur_devel(namespace, devel)[i] == aur[i].pkg
            &&& custom_devel(namespace, devel).len() == custom.len()
            &&& forall|i: int|
                0 <= i < custom.len() ==> (#[trigger] custom_devel(namespace, devel)[i]).1
                    == custom[i].pkg && (custom[i].repo is Some ==> custom_devel(
                    namespace,
                    devel,
                )[i].0 == custom[i].repo.unwrap())
        }),
{
}

/// When everything is taken, each upgrade is kept at its place: packages of the sync
/// repositories by name; AUR packages by the name they have there, and behind them
/// the development packages from the AUR; packages from PKGBUILD repositories with
/// their repository, and behind them the other development packages. Nothing is left
/// out.
pub proof fn law_everything_is_taken(namespace: Seq<char>, c: CandidatesView)
    ensures
        ({
            let u = all_of(namespace, c);
            let aur = c.aur.len() as int;
            let pkgbuild = c.pkgbuild.len() as int;
            &&& u.repo_keep.len() == c.repo.len()
            &&& forall|i: int| 0 <= i < c.repo.len() ==> #[trigger] u.repo_keep[i] == c.repo[i].name
            &&& u.repo_skip.len() == 0
            &&& u.aur_keep.len() >= aur
            &&& forall|i: int| 0 <= i < aur ==> #[trigger] u.aur_keep[i] == c.aur[i].remote_name
            &&& u.aur_keep.skip(aur) == aur_devel(namespace, c.devel)
            &&& u.pkgbuild_keep.len() >= pkgbuild
            &&& forall|i: int|
                0 <= i < pkgbuild ==> #[trigger] u.pkgbuild_keep[i] == (
                    c.pkgbuild[i].repo,
                    c.pkgbuild[i].local_name,
                )
            &&& u.pkgbuild_keep.skip(pkgbuild) == custom_devel(namespace, c.devel)
            &&& u.aur_repos == repos_of(c.aur)
            &&& u.devel == names_of(c.devel)
        }),
{
    let u = all_of(namespace, c);
    assert(u.aur_keep.skip(c.aur.len() as int) =~= aur_devel(namespace, c.devel));
    assert(u.pkgbuild_keep.skip(c.pkgbuild.len() as int) =~= custom_devel(namespace, c.devel));
}

proof fn lemma_places_push(n: nat, f: spec_fn(int) -> bool)
    ensures
        Seq::new((n + 1) as nat, |i: int| i).filter(f) == if f(n as int) {
            Seq::new(n, |i: int| i).filter(f).push(n as int)
        } else {
            Seq::new(n, |i: int| i).filter(f)
        },
{
    assert(Seq::new((n + 1) as nat, |i: int| i) =~= Seq::new(n, |i: int| i).push(n as int));
    seqs::lemma_filter_push(Seq::new(n, |i: int| i), n as int, f);
}

/// The items picked are those at the marked places, from the first to the last.
pub proof fn law_picked_by_place<A>(s: Seq<A>, keep: Seq<bool>)
    ensures
        picked(s, keep) == Seq::new(s.len(), |i: int| i).filter(|i: int| keep[i]).map_values(
            |i: int| s[i],
        ),
{
    lemma_picked_places(s, keep, |i: int| keep[i], |i: int| s[i]);
}

/// An item is picked exactly when its place is marked, provided that no other item is
/// equal to it.
pub proof fn law_picked_by_mark<A>(s: Seq<A>, keep: Seq<bool>, i: int)
    requires
        0 <= i < s.len(),
        forall|j: int| 0 <= j < s.len() && j != i ==> #[trigger] s[j] != s[i],
    ensures
        picked(s, keep).contains(s[i]) <==> keep[i],
    decreases s.len(),
{
    let r = s.drop_last();
    let n = r.len();
    let p = picked(r, keep);
    if i < n {
        assert forall|j: int| 0 <= j < r.len() && j != i implies #[trigger] r[j] != r[i] by {
            assert(s[j] != s[i]);
        }
        law_picked_by_mark(r, keep, i);
        if p.contains(s[i]) {
            let k = choose|k: int| 0 <= k < p.len() && p[k] == s[i];
            assert(picked(s, keep)[k] == s[i]);
        }
        if picked(s, keep).contains(s[i]) {
            let k = choose|k: int| 0 <= k < picked(s, keep).len() && picked(s, keep)[k] == s[i];
            assert(s[n as int] != s[i]);
            assert(p[k] == s[i]);
        }
    } else {
        if keep[i] {
            assert(picked(s, keep)[p.len() as int] == s[i]);
        } else if p.contains(s[i]) {
            lemma_picked_from(r, keep, s[i]);
            let j = choose|j: int| 0 <= j < r.len() && r[j] == s[i];
            assert(s[j] == s[i]);
        }
    }
}

/// A package of a sync repository is kept exactly when the answer is empty or does not
/// name its own entry, and left out otherwise; provided that no other has its name.
pub proof fn law_repo_goes_by_its_entry(
    namespace: Seq<char>,
    c: CandidatesView,
    input: Seq<char>,
    excluded: Seq<bool>,
    i: int,
)
    requires
        excluded.len() == c.repo.len() + c.aur.len() + c.devel.len() + c.pkgbuild.len(),
        0 <= i < c.repo.len(),
        forall|j: int|
            0 <= j < c.repo.len() && j != i ==> (#[trigger] c.repo[j]).name != c.repo[i].name,
    ensures
        ({
            let u = chosen(namespace, c, kept(input, excluded));
            let stays = input.len() == 0 || !excluded[i];
            &&& u.repo_keep.contains(c.repo[i].name) <==> stays
            &&& u.repo_skip.contains(c.repo[i].name) <==> !stays
        }),
{
    let keep = kept(input, excluded);
    let names = c.repo.map_values(|p: PackageView| p.name);
    law_picked_by_mark(names, keep, i);
    law_picked_by_mark(names, keep.map_values(|k: bool| !k), i);
}

/// An AUR upgrade is kept exactly when the answer is empty or does not name its own
/// entry, which stands behind those of the sync repositories; provided that neither
/// another AUR upgrade nor a development package has its name.
pub proof fn law_aur_goes_by_its_entry(
    namespace: Seq<char>,
    c: CandidatesView,
    input: Seq<char>,
    excluded: Seq<bool>,
    i: int,
)
    requires
        excluded.len() == c.repo.len() + c.aur.len() + c.devel.len() + c.pkgbuild.len(),
        0 <= i < c.aur.len(),
        forall|j: int|
            0 <= j < c.aur.len() && j != i ==> (#[trigger] c.aur[j]).local_name
                != c.aur[i].local_name,
        forall|j: int|
            0 <= j < c.devel.len() ==> (#[trigger] c.devel[j]).pkg != c.aur[i].local_name,
    ensures
        chosen(namespace, c, kept(input, excluded)).aur_keep.contains(c.aur[i].local_name)
            <==> input.len() == 0 || !excluded[c.repo.len() + i],
{
    let keep = kept(input, excluded);
    let name = c.aur[i].local_name;
    let aur_keep = keep.skip(c.repo.len() as int);
    let devel_keep = aur_keep.skip(c.aur.len() as int);
    let names = c.aur.map_values(|u: AurUpdateView| u.local_name);
    let first = picked(names, aur_keep);
    let devel = picked(c.devel, devel_keep);
    let all = chosen(namespace, c, keep).aur_keep;
    law_picked_by_mark(names, aur_keep, i);
    if first.contains(name) {
        let k = choose|k: int| 0 <= k < first.len() && first[k] == name;
        assert(all[k] == name);
    }
    if all.contains(name) {
        let k = choose|k: int| 0 <= k < all.len() && all[k] == name;
        if k < first.len() {
            assert(first[k] == name);
        } else {
            assert(aur_devel(namespace, devel)[k - first.len()] == name);
            lemma_aur_devel_from(namespace, devel, name);
            lemma_names_picked(c.devel, devel_keep, name);
            law_devel_names(c.devel, name);
        }
    }
}

/// An update from a PKGBUILD repository is kept exactly when the answer is empty or
/// does not name its own entry, which stands at the end; provided that no other from
/// the same repository, and no development package, has its name.
pub proof fn law_pkgbuild_goes_by_its_entry(
    namespace: Seq<char>,
    c: CandidatesView,
    input: Seq<char>,
    excluded: Seq<bool>,
    i: int,
)
    requires
        excluded.len() == c.repo.len() + c.aur.len() + c.devel.len() + c.pkgbuild.len(),
        0 <= i < c.pkgbuild.len(),
        forall|j: int|
            0 <= j < c.pkgbuild.len() && j != i ==> (#[trigger] c.pkgbuild[j]).repo
                != c.pkgbuild[i].repo || c.pkgbuild[j].local_name != c.pkgbuild[i].local_name,
        forall|j: int|
            0 <= j < c.devel.len() ==> (#[trigger] c.devel[j]).pkg != c.pkgbuild[i].local_name,
    ensures
        chosen(namespace, c, kept(input, excluded)).pkgbuild_keep.contains(
            (c.pkgbuild[i].repo, c.pkgbuild[i].local_name),
        ) <==> input.len() == 0 || !excluded[c.repo.len() + c.aur.len() + c.devel.len() + i],
{
    let keep = kept(input, excluded);
    let pair = (c.pkgbuild[i].repo, c.pkgbuild[i].local_name);
    let devel_keep = keep.skip(c.repo.len() as int).skip(c.aur.len() as int);
    let pkgbuild_keep = devel_keep.skip(c.devel.len() as int);
    let pairs = c.pkgbuild.map_values(|u: PkgbuildUpdateView| (u.repo, u.local_name));
    let last = picked(pairs, pkgbuild_keep);
    let devel = picked(c.devel, devel_keep);
    let first = custom_devel(namespace, devel);
    let all = chosen(namespace, c, keep).pkgbuild_keep;
    law_picked_by_mark(pairs, pkgbuild_keep, i);
    if last.contains(pair) {
        let k = choose|k: int| 0 <= k < last.len() && last[k] == pair;
        assert(all[first.len() + k] == pair);
    }
    if all.contains(pair) {
        let k = choose|k: int| 0 <= k < all.len() && all[k] == pair;
        if k < first.len() {
            assert(first[k] == pair);
            lemma_custom_devel_from(namespace, devel, k);
            let t = choose|t: TargetView| devel.contains(t) && t.pkg == pair.1;
            lemma_picked_from(c.devel, devel_keep, t);
            let j = choose|j: int| 0 <= j < c.devel.len() && c.devel[j] == t;
            assert(c.devel[j].pkg == c.pkgbuild[i].local_name);
        } else {
            assert(last[k - first.len()] == pair);
        }
    }
}

proof fn lemma_custom_devel_from(namespace: Seq<char>, devel: Seq<TargetView>, k: int)
    requires
        0 <= k < custom_devel(namespace, devel).len(),
    ensures
        exists|t: TargetView|
            devel.contains(t) && t.repo != Some(namespace) && t.pkg == custom_devel(
                namespace,
                devel,
            )[k].1,
{
    let f = |t: TargetView| t.repo != Some(namespace);
    let t = devel.filter(f)[k];
    assert(devel.filter(f).contains(t));
    seqs::lemma_filter_from(devel, f, t);
    assert(t.pkg == custom_devel(namespace, devel)[k].1);
}

/// What is chosen, place by place. Each upgrade goes by the mark of its own entry: the
/// packages of the sync repositories by the first marks, the AUR upgrades by those
/// behind them, then the development packages and at last the updates from PKGBUILD
/// repositories. Of the AUR, the AUR upgrades come first and then the development
/// packages; of PKGBUILD repositories, the development packages come first.
pub proof fn law_chosen_by_place(
    namespace: Seq<char>,
    c: CandidatesView,
    input: Seq<char>,
    excluded: Seq<bool>,
)
    requires
        excluded.len() == c.repo.len() + c.aur.len() + c.devel.len() + c.pkgbuild.len(),
    ensures
        ({
            let u = chosen(namespace, c, kept(input, excluded));
            let stays = |i: int| input.len() == 0 || !excluded[i];
            let aur_at = c.repo.len() as int;
            let devel_at = aur_at + c.aur.len();
            let pkgbuild_at = devel_at + c.devel.len();
            let devel = Seq::new(c.devel.len(), |i: int| i).filter(
                |i: int| stays(devel_at + i),
            ).map_values(|i: int| c.devel[i]);
            &&& u.repo_keep == Seq::new(c.repo.len(), |i: int| i).filter(
                |i: int| stays(i),
            ).map_values(|i: int| c.repo[i].name)
            &&& u.repo_skip == Seq::new(c.repo.len(), |i: int| i).filter(
                |i: int| !stays(i),
            ).map_values(|i: int| c.repo[i].name)
            &&& u.aur_keep == Seq::new(c.aur.len(), |i: int| i).filter(
                |i: int| stays(aur_at + i),
            ).map_values(|i: int| c.aur[i].local_name) + aur_devel(namespace, devel)
            &&& u.pkgbuild_keep == custom_devel(namespace, devel) + Seq::new(
                c.pkgbuild.len(),
                |i: int| i,
            ).filter(|i: int| stays(pkgbuild_at + i)).map_values(
                |i: int| (c.pkgbuild[i].repo, c.pkgbuild[i].local_name),
            )
            &&& u.aur_repos == repos_of(c.aur)
            &&& u.devel == names_of(c.devel)
        }),
{
    let keep = kept(input, excluded);
    let stays = |i: int| input.len() == 0 || !excluded[i];
    let aur_at = c.repo.len() as int;
    let devel_at = aur_at + c.aur.len();
    let pkgbuild_at = devel_at + c.devel.len();
    let keep_aur = keep.skip(aur_at);
    let keep_devel = keep_aur.skip(c.aur.len() as int);
    let keep_pkgbuild = keep_devel.skip(c.devel.len() as int);
    let repo = c.repo.map_values(|p: PackageView| p.name);
    let aur = c.aur.map_values(|u: AurUpdateView| u.local_name);
    let pairs = c.pkgbuild.map_values(|u: PkgbuildUpdateView| (u.repo, u.local_name));
    lemma_picked_places(
        repo,
        keep,
        |i: int| stays(i),
        |i: int| c.repo[i].name,
    );
    lemma_picked_places(
        repo,
        keep.map_values(|k: bool| !k),
        |i: int| !stays(i),
        |i: int| c.repo[i].name,
    );
    lemma_picked_places(
        aur,
        keep_aur,
        |i: int| stays(aur_at + i),
        |i: int| c.aur[i].local_name,
    );
    lemma_picked_places(
        c.devel,
        keep_devel,
        |i: int| stays(devel_at + i),
        |i: int| c.devel[i],
    );
    lemma_picked_places(
        pairs,
        keep_pkgbuild,
        |i: int| stays(pkgbuild_at + i),
        |i: int| (c.pkgbuild[i].repo, c.pkgbuild[i].local_name),
    );
}

proof fn lemma_picked_places<A>(
    s: Seq<A>,
    keep: Seq<bool>,
    f: spec_fn(int) -> bool,
    g: spec_fn(int) -> A,
)
    requires
        forall|i: int| 0 <= i < s.len() ==> #[trigger] f(i) == keep[i],
        forall|i: int| 0 <= i < s.len() ==> #[trigger] g(i) == s[i],
    ensures
        picked(s, keep) == Seq::new(s.len(), |i: int| i).filter(f).map_values(g),
    decreases s.len(),
{
    if s.len() == 0 {
        reveal(Seq::filter);
        assert(picked(s, keep) =~= Seq::new(s.len(), |i: int| i).filter(f).map_values(g));
    } else {
        let r = s.drop_last();
        let n = r.len();
        let places = Seq::new(n, |i: int| i).filter(f);
        assert forall|i: int| 0 <= i < r.len() implies #[trigger] g(i) == r[i] by {
            assert(g(i) == s[i]);
        }
        lemma_picked_places(r, keep, f, g);
        lemma_places_push(n, f);
        assert(f(n as int) == keep[n as int]);
        assert(g(n as int) == s[n as int]);
        if keep[n as int] {
            assert(places.push(n as int).map_values(g) =~= places.map_values(g).push(s.last()));
        }
    }
}

/// An entry stays when the answer is empty, and otherwise when the answer does not
/// name it.
pub proof fn law_kept(input: Seq<char>, excluded: Seq<bool>)
    ensures
        kept(input, excluded).len() == excluded.len(),
        forall|i: int|
            0 <= i < excluded.len() ==> (#[trigger] kept(input, excluded)[i] <==> input.len() == 0
                || !excluded[i]),
{
}

/// A development package is kept exactly when the answer is empty or does not name its
/// own entry, which stands behind those of the AUR: among the AUR packages if that is
/// its repository, else with its repository among those of PKGBUILD repositories;
/// provided that no other upgrade has its name.
pub proof fn law_devel_goes_by_its_entry(
    namespace: Seq<char>,
    c: CandidatesView,
    input: Seq<char>,
    excluded: Seq<bool>,
    i: int,
)
    requires
        excluded.len() == c.repo.len() + c.aur.len() + c.devel.len() + c.pkgbuild.len(),
        0 <= i < c.devel.len(),
        c.devel[i].repo is Some,
        forall|j: int|
            0 <= j < c.devel.len() && j != i ==> (#[trigger] c.devel[j]).pkg != c.devel[i].pkg,
        forall|j: int|
            0 <= j < c.aur.len() ==> (#[trigger] c.aur[j]).local_name != c.devel[i].pkg,
        forall|j: int|
            0 <= j < c.pkgbuild.len() ==> (#[trigger] c.pkgbuild[j]).local_name != c.devel[i].pkg,
    ensures
        ({
            let u = chosen(namespace, c, kept(input, excluded));
            let stays = input.len() == 0 || !excluded[c.repo.len() + c.aur.len() + i];
            let t = c.devel[i];
            &&& u.aur_keep.contains(t.pkg) <==> stays && t.repo == Some(namespace)
            &&& u.pkgbuild_keep.contains((t.repo.unwrap(), t.pkg)) <==> stays && t.repo != Some(
                namespace,
            )
        }),
{
    let keep = kept(input, excluded);
    let t = c.devel[i];
    let keep_aur = keep.skip(c.repo.len() as int);
    let keep_devel = keep_aur.skip(c.aur.len() as int);
    let keep_pkgbuild = keep_devel.skip(c.devel.len() as int);
    let names = c.aur.map_values(|u: AurUpdateView| u.local_name);
    let pairs = c.pkgbuild.map_values(|u: PkgbuildUpdateView| (u.repo, u.local_name));
    let aur = picked(names, keep_aur);
    let devel = picked(c.devel, keep_devel);
    let pkgbuild = picked(pairs, keep_pkgbuild);
    let from_aur = aur_devel(namespace, devel);
    let custom = custom_devel(namespace, devel);
    let u = chosen(namespace, c, keep);
    let pair = (t.repo.unwrap(), t.pkg);
    assert forall|j: int| 0 <= j < c.devel.len() && j != i implies #[trigger] c.devel[j]
        != c.devel[i] by {
        assert(c.devel[j].pkg != t.pkg);
    }
    law_picked_by_mark(c.devel, keep_devel, i);
    if devel.contains(t) {
        lemma_devel_sorted_in(namespace, devel, t);
        if t.repo == Some(namespace) {
            let k = choose|k: int| 0 <= k < from_aur.len() && from_aur[k] == t.pkg;
            assert(u.aur_keep[aur.len() + k] == t.pkg);
        } else {
            let k = choose|k: int| 0 <= k < custom.len() && custom[k] == pair;
            assert(u.pkgbuild_keep[k] == pair);
        }
    }
    if u.aur_keep.contains(t.pkg) {
        let k = choose|k: int| 0 <= k < u.aur_keep.len() && u.aur_keep[k] == t.pkg;
        if k < aur.len() {
            assert(aur[k] == t.pkg);
            lemma_picked_from(names, keep_aur, t.pkg);
            let j = choose|j: int| 0 <= j < names.len() && names[j] == t.pkg;
            assert(c.aur[j].local_name == t.pkg);
        } else {
            let f = |t: TargetView| t.repo == Some(namespace);
            let x = devel.filter(f)[k - aur.len()];
            assert(devel.filter(f).contains(x));
            seqs::lemma_filter_from(devel, f, x);
            lemma_picked_from(c.devel, keep_devel, x);
            let j = choose|j: int| 0 <= j < c.devel.len() && c.devel[j] == x;
            assert(from_aur[k - aur.len()] == x.pkg);
            assert(j == i);
        }
    }
    if u.pkgbuild_keep.contains(pair) {
        let k = choose|k: int| 0 <= k < u.pkgbuild_keep.len() && u.pkgbuild_keep[k] == pair;
        if k < custom.len() {
            let f = |t: TargetView| t.repo != Some(namespace);
            let x = devel.filter(f)[k];
            assert(devel.filter(f).contains(x));
            seqs::lemma_filter_from(devel, f, x);
            lemma_picked_from(c.devel, keep_devel, x);
            let j = choose|j: int| 0 <= j < c.devel.len() && c.devel[j] == x;
            assert(custom[k].1 == x.pkg);
            assert(j == i);
        } else {
            assert(pkgbuild[k - custom.len()] == pair);
            lemma_picked_from(pairs, keep_pkgbuild, pair);
            let j = choose|j: int| 0 <= j < pairs.len() && pairs[j] == pair;
            assert(c.pkgbuild[j].local_name == t.pkg);
        }
    }
}

proof fn lemma_devel_sorted_in(namespace: Seq<char>, devel: Seq<TargetView>, t: TargetView)
    requires
        devel.contains(t),
    ensures
        t.repo == Some(namespace) ==> aur_devel(namespace, devel).contains(t.pkg),
        t.repo != Some(namespace) ==> custom_devel(namespace, devel).contains(
            (t.repo.unwrap(), t.pkg),
        ),
{
    let f = |t: TargetView| t.repo == Some(namespace);
    let g = |t: TargetView| t.repo != Some(namespace);
    let i = choose|i: int| 0 <= i < devel.len() && devel[i] == t;
    if t.repo == Some(namespace) {
        devel.lemma_filter_contains(f, i);
        let k = choose|k: int| 0 <= k < devel.filter(f).len() && devel.filter(f)[k] == t;
        assert(aur_devel(namespace, devel)[k] == t.pkg);
    } else {
        devel.lemma_filter_contains(g, i);
        let k = choose|k: int| 0 <= k < devel.filter(g).len() && devel.filter(g)[k] == t;
        assert(custom_devel(namespace, devel)[k] == (t.repo.unwrap(), t.pkg));
    }
}

/// A package that was found in one of the sync repositories is upgraded, if such
/// packages are asked for and upgraded along, whether or not anything else was found:
/// without a menu it is taken, with one it is open to choice.
pub proof fn law_found_repo_is_upgraded(
    config: Config,
    found: FoundView,
    now: int,
    p: PackageView,
)
    requires
        config.mode.repo,
        config.combined_upgrade,
        found.repo.contains(p),
        found.repo_dbs.contains(p.db),
    ensures
        match next_step(config, candidates(config, found, now)) {
            NextView::Done(u) => !config.upgrade_menu && u.repo_keep.contains(p.name),
            NextView::Ask(c) => config.upgrade_menu && c == candidates(config, found, now)
                && c.repo.contains(p),
        },
{
    let c = candidates(config, found, now);
    law_repo_candidates(config, found, now, p);
    let i = choose|i: int| 0 <= i < c.repo.len() && c.repo[i] == p;
    assert(all_of(config.aur_namespace@, c).repo_keep[i] == p.name);
}

/// An AUR update that no development package stands in for, and that is an exception
/// or as old as the cooldown, is upgraded, whether or not anything else was found:
/// without a menu it is taken, with one it is open to choice.
pub proof fn law_found_aur_is_upgraded(
    config: Config,
    found: FoundView,
    now: int,
    u: AurUpdateView,
)
    requires
        found.aur.contains(u),
        forall|i: int|
            0 <= i < found.devel.len() ==> (#[trigger] found.devel[i]).pkg != u.remote_name,
        config.aur_cooldown == 0 || text::views(config.cooldown_skip@).contains(u.remote_name)
            || now - u.last_modified >= config.aur_cooldown * 86400,
    ensures
        match next_step(config, candidates(config, found, now)) {
            NextView::Done(all) => !config.upgrade_menu && all.aur_keep.contains(u.remote_name),
            NextView::Ask(c) => config.upgrade_menu && c == candidates(config, found, now)
                && c.aur.contains(u),
        },
{
    let c = candidates(config, found, now);
    law_devel_names(found.devel, u.remote_name);
    law_aur_candidates(config, found, now, u);
    let i = choose|i: int| 0 <= i < c.aur.len() && c.aur[i] == u;
    assert(all_of(config.aur_namespace@, c).aur_keep[i] == u.remote_name);
}

/// A development package with new commits is upgraded, whether or not anything else
/// was found: without a menu it is taken from where it comes from, with one it is open
/// to choice.
pub proof fn law_found_devel_is_upgraded(
    config: Config,
    found: FoundView,
    now: int,
    t: TargetView,
)
    requires
        found.devel.contains(t),
        t.repo is Some,
    ensures
        match next_step(config, candidates(config, found, now)) {
            NextView::Done(all) => {
                &&& !config.upgrade_menu
                &&& all.devel.contains(t.pkg)
                &&& if t.repo == Some(config.aur_namespace@) {
                    all.aur_keep.contains(t.pkg)
                } else {
                    all.pkgbuild_keep.contains((t.repo.unwrap(), t.pkg))
                }
            },
            NextView::Ask(c) => config.upgrade_menu && c == candidates(config, found, now)
                && c.devel.contains(t),
        },
{
    let c = candidates(config, found, now);
    let namespace = config.aur_namespace@;
    let all = all_of(namespace, c);
    package::law_ordered_sorts(found.devel);
    assert(c.devel.contains(t));
    let j = choose|j: int| 0 <= j < c.devel.len() && c.devel[j] == t;
    law_devel_names(c.devel, t.pkg);
    lemma_devel_sorted_in(namespace, c.devel, t);
    if t.repo == Some(namespace) {
        let s = aur_devel(namespace, c.devel);
        let k = choose|k: int| 0 <= k < s.len() && s[k] == t.pkg;
        assert(all.aur_keep[c.aur.len() + k] == t.pkg);
    } else {
        let s = custom_devel(namespace, c.devel);
        let k = choose|k: int| 0 <= k < s.len() && s[k] == (t.repo.unwrap(), t.pkg);
        assert(all.pkgbuild_keep[c.pkgbuild.len() + k] == (t.repo.unwrap(), t.pkg));
    }
}

/// An update from a PKGBUILD repository is upgraded, whether or not anything else was
/// found: without a menu it is taken, with one it is open to choice.
pub proof fn law_found_pkgbuild_is_upgraded(
    config: Config,
    found: FoundView,
    now: int,
    u: PkgbuildUpdateView,
)
    requires
        found.pkgbuild.contains(u),
    ensures
        match next_step(config, candidates(config, found, now)) {
            NextView::Done(all) => !config.upgrade_menu && all.pkgbuild_keep.contains(
                (u.repo, u.local_name),
            ),
            NextView::Ask(c) => config.upgrade_menu && c == candidates(config, found, now)
                && c.pkgbuild.contains(u),
        },
{
    let c = candidates(config, found, now);
    let i = choose|i: int| 0 <= i < c.pkgbuild.len() && c.pkgbuild[i] == u;
    assert(all_of(config.aur_namespace@, c).pkgbuild_keep[i] == (u.repo, u.local_name));
}

/// What is found, what is upgraded and what is to be done are seen as they are.
pub proof fn law_upgrades_seen(found: Found, upgrades: Upgrades, next: Next)
    ensures
        found@.repo == text::views(found.repo@),
        found@.repo_dbs == text::views(found.repo_dbs@),
        found@.aur == text::views(found.aur@),
        found@.devel == text::views(found.devel@),
        found@.pkgbuild == text::views(found.pkgbuild@),
        upgrades@.repo_keep == text::views(upgrades.repo_keep@),
        upgrades@.repo_skip == text::views(upgrades.repo_skip@),
        upgrades@.aur_keep == text::views(upgrades.aur_keep@),
        upgrades@.pkgbuild_keep.len() == upgrades.pkgbuild_keep@.len(),
        forall|i: int|
            0 <= i < upgrades.pkgbuild_keep@.len() ==> #[trigger] upgrades@.pkgbuild_keep[i] == (
                upgrades.pkgbuild_keep@[i].0@,
                upgrades.pkgbuild_keep@[i].1@,
            ),
        upgrades@.devel == upgrades.devel@,
        upgrades@.aur_repos.dom() == upgrades.aur_repos@.dom(),
        forall|name: Seq<char>| #[trigger]
            upgrades@.aur_repos.contains_key(name) ==> upgrades@.aur_repos[name]
                == upgrades.aur_repos@[name]@,
        next matches Next::Done(u) ==> next@ == NextView::Done(u@),
        next matches Next::Ask(c) ==> next@ == NextView::Ask(c@),
{
    assert(upgrades@.aur_repos.dom() =~= upgrades.aur_repos@.dom());
}

} // verus!
