//! The upgrade menu: what is listed, and how each line reads.

use crate::package::{
    AurUpdate, AurUpdateView, Databases, DatabasesView, Package, PackageDb, PackageView,
    PkgbuildUpdate, PkgbuildUpdateView, Target, TargetView,
};
use crate::package;
use crate::style::{Colors, ColorsView};
use crate::text;
use crate::version;
use vstd::prelude::*;

verus! {

broadcast use crate::text::lemma_views_push;

/// The upgrades that are open to choice.
pub struct Candidates {
    pub repo: Vec<Package>,
    pub aur: Vec<AurUpdate>,
    pub devel: Vec<Target>,
    pub pkgbuild: Vec<PkgbuildUpdate>,
}

#[verifier::ext_equal]
pub struct CandidatesView {
    pub repo: Seq<PackageView>,
    pub aur: Seq<AurUpdateView>,
    pub devel: Seq<TargetView>,
    pub pkgbuild: Seq<PkgbuildUpdateView>,
}

impl View for Candidates {
    type V = CandidatesView;

    open spec fn view(&self) -> CandidatesView {
        CandidatesView {
            repo: text::views(self.repo@),
            aur: text::views(self.aur@),
            devel: text::views(self.devel@),
            pkgbuild: text::views(self.pkgbuild@),
        }
    }
}

impl CandidatesView {
    /// How many upgrades there are.
    pub open spec fn count(self) -> nat {
        self.repo.len() + self.aur.len() + self.devel.len() + self.pkgbuild.len()
    }
}

/// An upgrade as the menu lists it.
pub struct Entry {
    pub pkg: String,
    /// The repository that is shown.
    pub db: String,
    /// The installed version.
    pub old: String,
    /// The version to be installed.
    pub new: String,
    /// The word by which the user can name the upgrade, besides its number.
    pub word: String,
    /// The bytes that the repository and the package ask for in their column.
    pub width: usize,
    /// The bytes that the installed version asks for in its column.
    pub old_width: usize,
}

#[verifier::ext_equal]
pub struct EntryView {
    pub pkg: Seq<char>,
    pub db: Seq<char>,
    pub old: Seq<char>,
    pub new: Seq<char>,
    pub word: Seq<char>,
    pub width: nat,
    pub old_width: nat,
}

impl View for Entry {
    type V = EntryView;

    open spec fn view(&self) -> EntryView {
        EntryView {
            pkg: self.pkg@,
            db: self.db@,
            old: self.old@,
            new: self.new@,
            word: self.word@,
            width: self.width as nat,
            old_width: self.old_width as nat,
        }
    }
}

/// The name of the AUR database that holds `name`, with `suffix` behind it; `other`
/// when none does.
pub open spec fn label(
    aurdbs: Seq<PackageView>,
    name: Seq<char>,
    suffix: Seq<char>,
    other: Seq<char>,
) -> Seq<char> {
    match package::find(aurdbs, name) {
        Some(pkg) => pkg.db + suffix,
        None => other,
    }
}

/// The bytes that `name` and the repository it is listed under ask for: `repo_name`,
/// behind the name of the AUR database that holds the package, if one does.
pub open spec fn db_width(
    name: Seq<char>,
    repo_name: Seq<char>,
    aurdbs: Seq<PackageView>,
) -> nat {
    text::byte_len(name) + match package::find(aurdbs, name) {
        Some(pkg) => text::byte_len(pkg.db) + text::byte_len(repo_name) + 1,
        None => text::byte_len(repo_name),
    }
}

/// How an upgrade from a sync repository is listed.
pub open spec fn repo_entry(dbs: DatabasesView, pkg: PackageView) -> EntryView {
    let installed = package::find(dbs.local, pkg.name).unwrap();
    EntryView {
        pkg: pkg.name,
        db: pkg.db,
        old: installed.version,
        new: pkg.version,
        word: package::find(dbs.sync, pkg.name).unwrap().db,
        width: text::byte_len(pkg.name) + text::byte_len(pkg.db),
        old_width: text::byte_len(installed.version),
    }
}

/// How an upgrade from the AUR is listed.
pub open spec fn aur_entry(dbs: DatabasesView, update: AurUpdateView) -> EntryView {
    EntryView {
        pkg: update.local_name,
        db: label(dbs.aur, update.local_name, "-aur"@, "aur"@),
        old: update.local_version,
        new: update.remote_version,
        word: label(dbs.aur, update.local_name, Seq::empty(), "aur"@),
        width: db_width(update.local_name, "aur"@, dbs.aur),
        old_width: text::byte_len(update.local_version),
    }
}

/// How the upgrade of a development package is listed.
pub open spec fn devel_entry(dbs: DatabasesView, target: TargetView) -> EntryView {
    let shown = label(dbs.aur, target.pkg, "-devel"@, "devel"@);
    EntryView {
        pkg: target.pkg,
        db: shown,
        old: match package::find(dbs.aur, target.pkg) {
            Some(pkg) => pkg.version,
            None => package::find(dbs.local, target.pkg).unwrap().version,
        },
        new: "latest-commit"@,
        word: shown + "-devel"@,
        width: db_width(target.pkg, "devel"@, dbs.aur),
        old_width: match package::find(dbs.local, target.pkg) {
            Some(pkg) => text::byte_len(pkg.version),
            None => 0,
        },
    }
}

/// How an upgrade from a PKGBUILD repository is listed.
pub open spec fn pkgbuild_entry(dbs: DatabasesView, update: PkgbuildUpdateView) -> EntryView {
    EntryView {
        pkg: update.local_name,
        db: label(dbs.aur, update.local_name, "-"@ + update.repo, "aur"@),
        old: update.local_version,
        new: update.remote_version,
        word: label(dbs.aur, update.local_name, Seq::empty(), update.repo),
        width: db_width(update.local_name, update.repo, dbs.aur),
        old_width: text::byte_len(update.local_version),
    }
}

/// The upgrades as the menu lists them, from top to bottom.
pub open spec fn entries(dbs: DatabasesView, c: CandidatesView) -> Seq<EntryView> {
    c.repo.map_values(|pkg: PackageView| repo_entry(dbs, pkg)) + c.aur.map_values(
        |update: AurUpdateView| aur_entry(dbs, update),
    ) + c.devel.map_values(|target: TargetView| devel_entry(dbs, target)) + c.pkgbuild.map_values(
        |update: PkgbuildUpdateView| pkgbuild_entry(dbs, update),
    )
}

/// Whether the databases know what they are asked for: each package of a sync
/// repository is installed and found in one, and each development package is
/// installed or found in an AUR database.
pub open spec fn known(dbs: DatabasesView, c: CandidatesView) -> bool {
    &&& forall|i: int|
        0 <= i < c.repo.len() ==> package::find(dbs.local, (#[trigger] c.repo[i]).name) is Some
            && package::find(dbs.sync, c.repo[i].name) is Some
    &&& forall|i: int|
        0 <= i < c.devel.len() ==> package::find(dbs.aur, (#[trigger] c.devel[i]).pkg) is Some
            || package::find(dbs.local, c.devel[i].pkg) is Some
}

/// The greatest of the numbers; 0 of none.
pub open spec fn greatest(s: Seq<nat>) -> nat
    decreases s.len(),
{
    if s.len() == 0 {
        0
    } else if greatest(s.drop_last()) < s.last() {
        s.last()
    } else {
        greatest(s.drop_last())
    }
}

/// The menu: the entries from top to bottom, and the widths of the columns.
pub struct Menu {
    pub entries: Vec<Entry>,
    /// The width of the numbers.
    pub n_max: usize,
    /// The width of repository and package.
    pub db_pkg_max: usize,
    /// The width of the installed versions.
    pub old_max: usize,
}

#[verifier::ext_equal]
pub struct MenuView {
    pub entries: Seq<EntryView>,
    pub n_max: nat,
    pub db_pkg_max: nat,
    pub old_max: nat,
}

impl View for Menu {
    type V = MenuView;

    open spec fn view(&self) -> MenuView {
        MenuView {
            entries: text::views(self.entries@),
            n_max: self.n_max as nat,
            db_pkg_max: self.db_pkg_max as nat,
            old_max: self.old_max as nat,
        }
    }
}

/// The menu of the upgrades `c`. The numbers are as wide as the count of upgrades
/// other than those from PKGBUILD repositories.
pub open spec fn menu_of(dbs: DatabasesView, c: CandidatesView) -> MenuView {
    let list = entries(dbs, c);
    MenuView {
        entries: list,
        n_max: text::decimal(c.repo.len() + c.aur.len() + c.devel.len()).len(),
        db_pkg_max: greatest(list.map_values(|e: EntryView| e.width)),
        old_max: greatest(list.map_values(|e: EntryView| e.old_width)),
    }
}

/// The bytes that `name` and the repository it is listed under ask for.
pub fn db_len(name: &str, repo_name: &str, aurdbs: &PackageDb) -> (n: usize)
    ensures
        n == db_width(name@, repo_name@, aurdbs@),
{
    let mut shown = match aurdbs.pkg(name) {
        Some(pkg) => {
            let mut s = pkg.db.clone();
            s.append("-");
            proof {
                reveal_strlit("-");
                text::lemma_byte_len_add(pkg.db@, "-"@);
                vstd::utf8::is_ascii_chars_encode_utf8("-"@);
            }
            s
        },
        None => {
            assert(text::byte_len(Seq::empty()) == 0);
            String::new()
        },
    };
    proof {
        text::lemma_byte_len_add(shown@, repo_name@);
        text::lemma_byte_len_add(shown@ + repo_name@, name@);
    }
    shown.append(repo_name);
    shown.append(name);
    text::byte_length(&shown)
}

/// The repository that `name` is listed under.
fn label_text(aurdbs: &PackageDb, name: &str, suffix: &str, other: &str) -> (s: String)
    ensures
        s@ == label(aurdbs@, name@, suffix@, other@),
{
    match aurdbs.pkg(name) {
        Some(pkg) => {
            let mut s = pkg.db.clone();
            s.append(suffix);
            s
        },
        None => other.to_owned(),
    }
}

fn list_repo(dbs: &Databases, pkg: &Package) -> (e: Entry)
    requires
        package::find(dbs.local@, pkg.name@) is Some,
        package::find(dbs.sync@, pkg.name@) is Some,
    ensures
        e@ == repo_entry(dbs@, pkg@),
{
    let installed = dbs.local.pkg(&pkg.name).unwrap();
    let mut column = pkg.name.clone();
    proof {
        text::lemma_byte_len_add(pkg.name@, pkg.db@);
    }
    column.append(&pkg.db);
    Entry {
        pkg: pkg.name.clone(),
        db: pkg.db.clone(),
        old: installed.version.clone(),
        new: pkg.version.clone(),
        word: dbs.sync.pkg(&pkg.name).unwrap().db.clone(),
        width: text::byte_length(&column),
        old_width: text::byte_length(&installed.version),
    }
}

fn list_aur(dbs: &Databases, update: &AurUpdate) -> (e: Entry)
    ensures
        e@ == aur_entry(dbs@, update@),
{
    proof {
        reveal_strlit("");
        assert(""@ =~= Seq::<char>::empty());
    }
    Entry {
        pkg: update.local_name.clone(),
        db: label_text(&dbs.aur, &update.local_name, "-aur", "aur"),
        old: update.local_version.clone(),
        new: update.remote_version.clone(),
        word: label_text(&dbs.aur, &update.local_name, "", "aur"),
        width: db_len(&update.local_name, "aur", &dbs.aur),
        old_width: text::byte_length(&update.local_version),
    }
}

fn list_devel(dbs: &Databases, target: &Target) -> (e: Entry)
    requires
        package::find(dbs.aur@, target.pkg@) is Some || package::find(
            dbs.local@,
            target.pkg@,
        ) is Some,
    ensures
        e@ == devel_entry(dbs@, target@),
{
    let db = label_text(&dbs.aur, &target.pkg, "-devel", "devel");
    let mut word = db.clone();
    word.append("-devel");
    let old = match dbs.aur.pkg(&target.pkg) {
        Some(pkg) => pkg.version.clone(),
        None => dbs.local.pkg(&target.pkg).unwrap().version.clone(),
    };
    let old_width: usize = match dbs.local.pkg(&target.pkg) {
        Some(pkg) => text::byte_length(&pkg.version),
        None => 0,
    };
    Entry {
        pkg: target.pkg.clone(),
        db,
        old,
        new: "latest-commit".to_owned(),
        word,
        width: db_len(&target.pkg, "devel", &dbs.aur),
        old_width,
    }
}

fn list_pkgbuild(dbs: &Databases, update: &PkgbuildUpdate) -> (e: Entry)
    ensures
        e@ == pkgbuild_entry(dbs@, update@),
{
    let mut suffix = "-".to_owned();
    suffix.append(&update.repo);
    proof {
        reveal_strlit("");
        assert(""@ =~= Seq::<char>::empty());
    }
    Entry {
        pkg: update.local_name.clone(),
        db: label_text(&dbs.aur, &update.local_name, &suffix, "aur"),
        old: update.local_version.clone(),
        new: update.remote_version.clone(),
        word: label_text(&dbs.aur, &update.local_name, "", &update.repo),
        width: db_len(&update.local_name, &update.repo, &dbs.aur),
        old_width: text::byte_length(&update.local_version),
    }
}

/// Lists the upgrades from top to bottom.
fn list_entries(dbs: &Databases, c: &Candidates) -> (list: Vec<Entry>)
    requires
        known(dbs@, c@),
    ensures
        text::views(list@) == entries(dbs@, c@),
{
    let ghost repo = c@.repo.map_values(|pkg: PackageView| repo_entry(dbs@, pkg));
    let ghost aur = c@.aur.map_values(|update: AurUpdateView| aur_entry(dbs@, update));
    let ghost devel = c@.devel.map_values(|target: TargetView| devel_entry(dbs@, target));
    let ghost pkgbuild = c@.pkgbuild.map_values(
        |update: PkgbuildUpdateView| pkgbuild_entry(dbs@, update),
    );
    let mut list: Vec<Entry> = Vec::new();
    let mut i: usize = 0;
    while i < c.repo.len()
        invariant
            known(dbs@, c@),
            repo == c@.repo.map_values(|pkg: PackageView| repo_entry(dbs@, pkg)),
            i <= c.repo@.len(),
            text::views(list@) =~= repo.take(i as int),
        decreases c.repo@.len() - i,
    {
        proof {
            assert(c@.repo[i as int] == c.repo@[i as int]@);
        }
        list.push(list_repo(dbs, &c.repo[i]));
        i += 1;
    }
    i = 0;
    while i < c.aur.len()
        invariant
            aur == c@.aur.map_values(|update: AurUpdateView| aur_entry(dbs@, update)),
            i <= c.aur@.len(),
            text::views(list@) =~= repo + aur.take(i as int),
        decreases c.aur@.len() - i,
    {
        proof {
            assert(c@.aur[i as int] == c.aur@[i as int]@);
        }
        list.push(list_aur(dbs, &c.aur[i]));
        i += 1;
    }
    i = 0;
    while i < c.devel.len()
        invariant
            known(dbs@, c@),
            devel == c@.devel.map_values(|target: TargetView| devel_entry(dbs@, target)),
            i <= c.devel@.len(),
            text::views(list@) =~= repo + aur + devel.take(i as int),
        decreases c.devel@.len() - i,
    {
        proof {
            assert(c@.devel[i as int] == c.devel@[i as int]@);
        }
        list.push(list_devel(dbs, &c.devel[i]));
        i += 1;
    }
    i = 0;
    while i < c.pkgbuild.len()
        invariant
            pkgbuild == c@.pkgbuild.map_values(
                |update: PkgbuildUpdateView| pkgbuild_entry(dbs@, update),
            ),
            i <= c.pkgbuild@.len(),
            text::views(list@) =~= repo + aur + devel + pkgbuild.take(i as int),
        decreases c.pkgbuild@.len() - i,
    {
        proof {
            assert(c@.pkgbuild[i as int] == c.pkgbuild@[i as int]@);
        }
        list.push(list_pkgbuild(dbs, &c.pkgbuild[i]));
        i += 1;
    }
    proof {
        assert(pkgbuild.take(i as int) =~= pkgbuild);
    }
    list
}

proof fn lemma_greatest_push(s: Seq<nat>, n: nat)
    ensures
        greatest(s.push(n)) == if greatest(s) < n {
            n
        } else {
            greatest(s)
        },
{
    assert(s.push(n).drop_last() =~= s);
}

/// Lays out the menu of the upgrades `c`.
pub fn build_menu(dbs: &Databases, c: &Candidates) -> (menu: Menu)
    requires
        known(dbs@, c@),
    ensures
        menu@ == menu_of(dbs@, c@),
{
    let list = list_entries(dbs, c);
    let ghost all = text::views(list@);
    let ghost widths = all.map_values(|e: EntryView| e.width);
    let ghost old_widths = all.map_values(|e: EntryView| e.old_width);
    let mut db_pkg_max: usize = 0;
    let mut old_max: usize = 0;
    let mut i: usize = 0;
    while i < list.len()
        invariant
            all == text::views(list@),
            widths == all.map_values(|e: EntryView| e.width),
            old_widths == all.map_values(|e: EntryView| e.old_width),
            i <= list@.len(),
            db_pkg_max == greatest(widths.take(i as int)),
            old_max == greatest(old_widths.take(i as int)),
        decreases list@.len() - i,
    {
        proof {
            assert(all[i as int] == list@[i as int]@);
            assert(widths.take(i + 1) =~= widths.take(i as int).push(list@[i as int]@.width));
            assert(old_widths.take(i + 1) =~= old_widths.take(i as int).push(
                list@[i as int]@.old_width,
            ));
            lemma_greatest_push(widths.take(i as int), list@[i as int]@.width);
            lemma_greatest_push(old_widths.take(i as int), list@[i as int]@.old_width);
        }
        if db_pkg_max < list[i].width {
            db_pkg_max = list[i].width;
        }
        if old_max < list[i].old_width {
            old_max = list[i].old_width;
        }
        i += 1;
    }
    proof {
        assert(widths.take(i as int) =~= widths);
        assert(old_widths.take(i as int) =~= old_widths);
        assert(list@.len() == c.repo@.len() + c.aur@.len() + c.devel@.len() + c.pkgbuild@.len());
    }
    let numbered = text::decimal_text(c.repo.len() + c.aur.len() + c.devel.len());
    Menu { entries: list, n_max: numbered.as_str().unicode_len(), db_pkg_max, old_max }
}

/// The number of the entry at `i`, counted from the bottom.
pub open spec fn number(count: nat, i: int) -> int {
    count - i
}

/// The bytes that repository and package take in their column.
pub open spec fn taken(e: EntryView) -> nat {
    text::byte_len(e.db) + text::byte_len(e.pkg)
}

/// Whether the entry `e` has room in the column of repository and package.
pub open spec fn fits(menu: MenuView, e: EntryView) -> bool {
    &&& taken(e) <= menu.db_pkg_max
    &&& menu.db_pkg_max - taken(e) < usize::MAX
}

/// One line of the menu, with the repository painted and the versions as `shown`.
pub open spec fn line(
    color: ColorsView,
    number: nat,
    menu: MenuView,
    e: EntryView,
    painted_db: Seq<char>,
    shown: (Seq<char>, Seq<char>),
) -> Seq<char> {
    let n = text::right_aligned(text::decimal(number), menu.n_max);
    let gap = text::blanks((menu.db_pkg_max - taken(e) + 1) as nat);
    let db_pkg = painted_db + "/"@ + color.bold.painted(e.pkg) + gap;
    color.number_menu.painted(n) + " "@ + color.bold.painted(db_pkg) + " "@ + shown.0 + " -> "@
        + shown.1
}

/// The versions of the entry `e`, as its line shows them.
pub open spec fn shown_versions(color: ColorsView, menu: MenuView, e: EntryView) -> (
    Seq<char>,
    Seq<char>,
) {
    let old = text::left_aligned(e.old, menu.old_max);
    version::diff(color, old, e.new, version::classes(old))
}

impl Menu {
    /// The number of the entry at `i`: the last one is number 1.
    pub fn number(&self, i: usize) -> (n: usize)
        requires
            i < self.entries@.len(),
        ensures
            n == number(self.entries@.len(), i as int),
    {
        self.entries.len() - i
    }

    /// Whether the entry at `i` has room in the column of repository and package.
    pub fn has_room(&self, i: usize) -> (r: bool)
        requires
            i < self.entries@.len(),
        ensures
            r == fits(self@, self.entries@[i as int]@),
    {
        let db: usize = text::byte_length(&self.entries[i].db);
        let pkg: usize = text::byte_length(&self.entries[i].pkg);
        db <= self.db_pkg_max && pkg <= self.db_pkg_max - db && self.db_pkg_max - db - pkg
            < usize::MAX
    }

    /// Writes the line of the entry at `i`, with the versions as `shown`.
    pub fn line_with(
        &self,
        color: &Colors,
        i: usize,
        painted_db: &str,
        shown: &(String, String),
    ) -> (s: String)
        requires
            i < self.entries@.len(),
            fits(self@, self.entries@[i as int]@),
        ensures
            s@ == line(
                color@,
                number(self.entries@.len(), i as int) as nat,
                self@,
                self.entries@[i as int]@,
                painted_db@,
                (shown.0@, shown.1@),
            ),
    {
        let e = &self.entries[i];
        let number = text::align_right(&text::decimal_text(self.number(i)), self.n_max);
        let taken: usize = text::byte_length(&e.db) + text::byte_length(&e.pkg);
        let mut db_pkg = painted_db.to_owned();
        db_pkg.append("/");
        db_pkg.append(&color.bold.paint(&e.pkg));
        db_pkg.append(&text::spaces(self.db_pkg_max - taken + 1));
        let mut s = color.number_menu.paint(&number);
        s.append(" ");
        s.append(&color.bold.paint(&db_pkg));
        s.append(" ");
        s.append(&shown.0);
        s.append(" -> ");
        s.append(&shown.1);
        s
    }

    /// Writes the line of the entry at `i`. The caller paints the repository.
    pub fn upgrade_line(&self, color: &Colors, i: usize, painted_db: &str) -> (s: String)
        requires
            i < self.entries@.len(),
            fits(self@, self.entries@[i as int]@),
        ensures
            s@ == line(
                color@,
                number(self.entries@.len(), i as int) as nat,
                self@,
                self.entries@[i as int]@,
                painted_db@,
                shown_versions(color@, self@, self.entries@[i as int]@),
            ),
    {
        let e = &self.entries[i];
        let old = text::align_left(&e.old, self.old_max);
        let shown = version::get_version_diff(color, &old, &e.new);
        self.line_with(color, i, painted_db, &shown)
    }
}

/// The menu has one entry for each upgrade.
pub proof fn law_one_entry_each(dbs: DatabasesView, c: CandidatesView)
    ensures
        entries(dbs, c).len() == c.count(),
{
}

/// The entries are numbered from their count, at the top, down to 1, at the bottom:
/// each number stands for one entry.
pub proof fn law_numbers_count_down(count: nat)
    ensures
        forall|i: int| 0 <= i < count ==> 1 <= #[trigger] number(count, i) <= count,
        forall|i: int, j: int|
            0 <= i < j < count ==> #[trigger] number(count, i) > #[trigger] number(count, j),
        forall|n: int| #![trigger number(count, count - n)]
            1 <= n <= count ==> 0 <= count - n < count && number(count, count - n) == n,
{
}

proof fn lemma_greatest(s: Seq<nat>, i: int)
    requires
        0 <= i < s.len(),
    ensures
        s[i] <= greatest(s),
    decreases s.len(),
{
    if i < s.len() - 1 {
        lemma_greatest(s.drop_last(), i);
    }
}

proof fn lemma_greatest_attained(s: Seq<nat>)
    requires
        s.len() > 0,
    ensures
        s.contains(greatest(s)),
    decreases s.len(),
{
    if greatest(s.drop_last()) < s.last() {
        assert(s[s.len() - 1] == greatest(s));
    } else if s.len() > 1 {
        lemma_greatest_attained(s.drop_last());
        let i = choose|i: int|
            0 <= i < s.drop_last().len() && s.drop_last()[i] == greatest(s.drop_last());
        assert(s[i] == greatest(s));
    } else {
        assert(s[0] == greatest(s));
    }
}

/// Each column is as wide as the widest entry asks for.
pub proof fn law_columns_as_wide_as_needed(dbs: DatabasesView, c: CandidatesView)
    ensures
        ({
            let menu = menu_of(dbs, c);
            &&& forall|i: int|
                0 <= i < menu.entries.len() ==> (#[trigger] menu.entries[i]).width
                    <= menu.db_pkg_max && menu.entries[i].old_width <= menu.old_max
            &&& c.count() > 0 ==> exists|i: int|
                0 <= i < menu.entries.len() && (#[trigger] menu.entries[i]).width
                    == menu.db_pkg_max
            &&& c.count() > 0 ==> exists|i: int|
                0 <= i < menu.entries.len() && (#[trigger] menu.entries[i]).old_width
                    == menu.old_max
        }),
{
    let menu = menu_of(dbs, c);
    let widths = menu.entries.map_values(|e: EntryView| e.width);
    let old_widths = menu.entries.map_values(|e: EntryView| e.old_width);
    assert forall|i: int| 0 <= i < menu.entries.len() implies (#[trigger] menu.entries[i]).width
        <= menu.db_pkg_max && menu.entries[i].old_width <= menu.old_max by {
        lemma_greatest(widths, i);
        lemma_greatest(old_widths, i);
    }
    if c.count() > 0 {
        lemma_greatest_attained(widths);
        lemma_greatest_attained(old_widths);
        let i = choose|i: int| 0 <= i < widths.len() && widths[i] == menu.db_pkg_max;
        assert(menu.entries[i].width == menu.db_pkg_max);
        let j = choose|j: int| 0 <= j < old_widths.len() && old_widths[j] == menu.old_max;
        assert(menu.entries[j].old_width == menu.old_max);
    }
}

/// An entry has room in its column, unless it is from a PKGBUILD repository whose
/// name is shorter than `aur`, under which it is shown.
pub proof fn law_entries_have_room(dbs: DatabasesView, c: CandidatesView, i: int)
    requires
        0 <= i < entries(dbs, c).len(),
        c.count() - c.pkgbuild.len() <= i ==> ({
            let update = c.pkgbuild[i - (c.count() - c.pkgbuild.len())];
            package::find(dbs.aur, update.local_name) is Some || text::byte_len(update.repo) >= 3
        }),
    ensures
        taken(entries(dbs, c)[i]) <= menu_of(dbs, c).db_pkg_max,
{
    let e = entries(dbs, c)[i];
    law_columns_as_wide_as_needed(dbs, c);
    assert(menu_of(dbs, c).entries[i].width <= menu_of(dbs, c).db_pkg_max);
    lemma_byte_len_labels();
    let repos = c.repo.len();
    let aurs = repos + c.aur.len();
    let devels = aurs + c.devel.len();
    if i < repos {
        assert(e == repo_entry(dbs, c.repo[i]));
    } else if i < aurs {
        let name = c.aur[i - repos].local_name;
        assert(e == aur_entry(dbs, c.aur[i - repos]));
        if let Some(pkg) = package::find(dbs.aur, name) {
            text::lemma_byte_len_add(pkg.db, "-aur"@);
        }
    } else if i < devels {
        let name = c.devel[i - aurs].pkg;
        assert(e == devel_entry(dbs, c.devel[i - aurs]));
        if let Some(pkg) = package::find(dbs.aur, name) {
            text::lemma_byte_len_add(pkg.db, "-devel"@);
        }
    } else {
        let update = c.pkgbuild[i - devels];
        assert(e == pkgbuild_entry(dbs, update));
        if let Some(pkg) = package::find(dbs.aur, update.local_name) {
            text::lemma_byte_len_add(pkg.db, "-"@ + update.repo);
            text::lemma_byte_len_add("-"@, update.repo);
        }
    }
}

proof fn lemma_byte_len_labels()
    ensures
        text::byte_len("-"@) == 1,
        text::byte_len("aur"@) == 3,
        text::byte_len("-aur"@) == 4,
        text::byte_len("devel"@) == 5,
        text::byte_len("-devel"@) == 6,
{
    reveal_strlit("-");
    reveal_strlit("aur");
    reveal_strlit("-aur");
    reveal_strlit("devel");
    reveal_strlit("-devel");
    vstd::utf8::is_ascii_chars_encode_utf8("-"@);
    vstd::utf8::is_ascii_chars_encode_utf8("aur"@);
    vstd::utf8::is_ascii_chars_encode_utf8("-aur"@);
    vstd::utf8::is_ascii_chars_encode_utf8("devel"@);
    vstd::utf8::is_ascii_chars_encode_utf8("-devel"@);
}

/// There are as many upgrades as there are of the four kinds together.
pub proof fn law_count(c: CandidatesView)
    ensures
        c.count() == c.repo.len() + c.aur.len() + c.devel.len() + c.pkgbuild.len(),
{
}

/// The entry of an upgrade from a sync repository stands at the place of the upgrade.
/// It shows the repository and the version of the package, and the version that is
/// installed under its name; it can be named by the first sync repository that holds
/// a package of its name.
pub proof fn law_repo_entries(
    dbs: DatabasesView,
    c: CandidatesView,
    i: int,
    installed: PackageView,
    held: PackageView,
)
    requires
        0 <= i < c.repo.len(),
        package::find(dbs.local, c.repo[i].name) == Some(installed),
        package::find(dbs.sync, c.repo[i].name) == Some(held),
    ensures
        ({
            let e = entries(dbs, c)[i];
            &&& e.pkg == c.repo[i].name
            &&& e.db == c.repo[i].db
            &&& e.old == installed.version
            &&& e.new == c.repo[i].version
            &&& e.word == held.db
            &&& e.width == vstd::utf8::encode_utf8(e.db).len() + vstd::utf8::encode_utf8(
                e.pkg,
            ).len()
            &&& e.old_width == vstd::utf8::encode_utf8(e.old).len()
            &&& installed.name == e.pkg
            &&& held.name == e.pkg
        }),
{
    package::law_find(dbs.local, c.repo[i].name);
    package::law_find(dbs.sync, c.repo[i].name);
    assert(entries(dbs, c)[i] == repo_entry(dbs, c.repo[i]));
}

/// The entry of an AUR upgrade stands behind those from the sync repositories, at the
/// place of the upgrade among its kind. It shows both versions of the upgrade. Where
/// an AUR database holds the package, it shows the database with `-aur` behind it and
/// can be named by the database; else it shows `aur` and can be named by that.
pub proof fn law_aur_entries(dbs: DatabasesView, c: CandidatesView, i: int)
    requires
        0 <= i < c.aur.len(),
    ensures
        ({
            let e = entries(dbs, c)[c.repo.len() + i];
            &&& e.pkg == c.aur[i].local_name
            &&& e.old == c.aur[i].local_version
            &&& e.new == c.aur[i].remote_version
            &&& match package::find(dbs.aur, e.pkg) {
                Some(held) => e.db == held.db + "-aur"@ && e.word == held.db,
                None => e.db == "aur"@ && e.word == "aur"@,
            }
            &&& e.width == vstd::utf8::encode_utf8(e.db).len() + vstd::utf8::encode_utf8(
                e.pkg,
            ).len()
            &&& e.old_width == vstd::utf8::encode_utf8(e.old).len()
        }),
{
    let e = entries(dbs, c)[c.repo.len() + i];
    assert(e == aur_entry(dbs, c.aur[i]));
    lemma_byte_len_labels();
    if let Some(held) = package::find(dbs.aur, e.pkg) {
        text::lemma_byte_len_add(held.db, "-aur"@);
        assert(held.db + Seq::<char>::empty() =~= held.db);
    }
}

/// The entry of a development package stands behind those from the AUR, at the place
/// of the package among its kind. Where an AUR database holds the package, it shows
/// the database with `-devel` behind it and the version there; else it shows `devel`
/// and the installed version. It can be named by what it shows with `-devel` behind
/// it.
pub proof fn law_devel_entries(dbs: DatabasesView, c: CandidatesView, i: int)
    requires
        0 <= i < c.devel.len(),
    ensures
        ({
            let e = entries(dbs, c)[c.repo.len() + c.aur.len() + i];
            let installed = package::find(dbs.local, e.pkg);
            &&& e.pkg == c.devel[i].pkg
            &&& e.new == "latest-commit"@
            &&& match package::find(dbs.aur, e.pkg) {
                Some(held) => e.db == held.db + "-devel"@ && e.old == held.version,
                None => e.db == "devel"@ && (installed is Some ==> e.old
                    == installed.unwrap().version),
            }
            &&& e.word == e.db + "-devel"@
            &&& e.width == vstd::utf8::encode_utf8(e.db).len() + vstd::utf8::encode_utf8(
                e.pkg,
            ).len()
            &&& installed is Some ==> e.old_width == vstd::utf8::encode_utf8(
                installed.unwrap().version,
            ).len()
            &&& installed is None ==> e.old_width == 0
        }),
{
    let e = entries(dbs, c)[c.repo.len() + c.aur.len() + i];
    assert(e == devel_entry(dbs, c.devel[i]));
    lemma_byte_len_labels();
    if let Some(held) = package::find(dbs.aur, e.pkg) {
        text::lemma_byte_len_add(held.db, "-devel"@);
    }
}

/// The entry of an upgrade from a PKGBUILD repository stands at the end, at the place
/// of the upgrade among its kind. It shows both versions of the upgrade. Where an AUR
/// database holds the package, it shows the database with the repository behind a
/// dash and can be named by the database; else it shows `aur` and can be named by the
/// repository. It asks for as much room as the repository takes.
pub proof fn law_pkgbuild_entries(dbs: DatabasesView, c: CandidatesView, i: int)
    requires
        0 <= i < c.pkgbuild.len(),
    ensures
        ({
            let e = entries(dbs, c)[c.repo.len() + c.aur.len() + c.devel.len() + i];
            let repo = c.pkgbuild[i].repo;
            let pkg_bytes = vstd::utf8::encode_utf8(e.pkg).len();
            &&& e.pkg == c.pkgbuild[i].local_name
            &&& e.old == c.pkgbuild[i].local_version
            &&& e.new == c.pkgbuild[i].remote_version
            &&& match package::find(dbs.aur, e.pkg) {
                Some(held) => {
                    &&& e.db == held.db + "-"@ + repo
                    &&& e.word == held.db
                    &&& e.width == vstd::utf8::encode_utf8(e.db).len() + pkg_bytes
                },
                None => {
                    &&& e.db == "aur"@
                    &&& e.word == repo
                    &&& e.width == vstd::utf8::encode_utf8(repo).len() + pkg_bytes
                },
            }
            &&& e.old_width == vstd::utf8::encode_utf8(e.old).len()
        }),
{
    let e = entries(dbs, c)[c.repo.len() + c.aur.len() + c.devel.len() + i];
    let repo = c.pkgbuild[i].repo;
    assert(e == pkgbuild_entry(dbs, c.pkgbuild[i]));
    lemma_byte_len_labels();
    if let Some(held) = package::find(dbs.aur, e.pkg) {
        assert(held.db + ("-"@ + repo) =~= held.db + "-"@ + repo);
        text::lemma_byte_len_add(held.db, "-"@ + repo);
        text::lemma_byte_len_add("-"@, repo);
        assert(held.db + Seq::<char>::empty() =~= held.db);
    }
}

/// The room that the entry of a package asks for: the bytes of its name and of
/// `repo_name`, and those of the AUR database that holds it and of a dash, if one
/// does.
pub proof fn law_db_width(name: Seq<char>, repo_name: Seq<char>, aurdbs: Seq<PackageView>)
    ensures
        match package::find(aurdbs, name) {
            Some(held) => db_width(name, repo_name, aurdbs) == vstd::utf8::encode_utf8(
                held.db + "-"@ + repo_name + name,
            ).len(),
            None => db_width(name, repo_name, aurdbs) == vstd::utf8::encode_utf8(
                repo_name + name,
            ).len(),
        },
{
    lemma_byte_len_labels();
    text::lemma_byte_len_add(repo_name, name);
    if let Some(held) = package::find(aurdbs, name) {
        text::lemma_byte_len_add(held.db, "-"@);
        text::lemma_byte_len_add(held.db + "-"@, repo_name);
        text::lemma_byte_len_add(held.db + "-"@ + repo_name, name);
    }
}

/// The menu lists the entries, and its numbers are as wide as the count of the
/// upgrades that are not from PKGBUILD repositories takes in decimal. The other
/// columns of a menu without entries have no width.
pub proof fn law_menu(dbs: DatabasesView, c: CandidatesView)
    ensures
        menu_of(dbs, c).entries == entries(dbs, c),
        menu_of(dbs, c).n_max == text::decimal(
            (c.repo.len() + c.aur.len() + c.devel.len()) as nat,
        ).len(),
        entries(dbs, c).len() == 0 ==> menu_of(dbs, c).db_pkg_max == 0 && menu_of(dbs, c).old_max
            == 0,
{
}

/// The menu can be laid out exactly when each package of a sync repository is
/// installed and found in one, and each development package is installed or found in
/// an AUR database.
pub proof fn law_known(dbs: DatabasesView, c: CandidatesView)
    ensures
        known(dbs, c) <==> {
            &&& forall|i: int|
                0 <= i < c.repo.len() ==> package::find(
                    dbs.local,
                    (#[trigger] c.repo[i]).name,
                ) is Some && package::find(dbs.sync, c.repo[i].name) is Some
            &&& forall|i: int|
                0 <= i < c.devel.len() ==> package::find(
                    dbs.aur,
                    (#[trigger] c.devel[i]).pkg,
                ) is Some || package::find(dbs.local, c.devel[i].pkg) is Some
        },
{
}

/// An entry has room when the bytes of its repository and package are no more than
/// their column is wide, and the gap behind them can be counted.
pub proof fn law_room(menu: MenuView, e: EntryView)
    ensures
        ({
            let bytes = vstd::utf8::encode_utf8(e.db).len() + vstd::utf8::encode_utf8(
                e.pkg,
            ).len();
            &&& taken(e) == bytes
            &&& fits(menu, e) <==> bytes <= menu.db_pkg_max && menu.db_pkg_max - bytes
                < usize::MAX
        }),
{
}

/// A line reads: the number, aligned right to its column; a blank; the repository, a
/// slash, the package and blanks that fill the column up and one more; a blank; the
/// installed version, an arrow and the new one. Number, package, and repository and
/// package together stand between the prefix and the suffix of their styles.
pub proof fn law_line(
    color: ColorsView,
    number: nat,
    menu: MenuView,
    e: EntryView,
    painted_db: Seq<char>,
    shown: (Seq<char>, Seq<char>),
    fill: Seq<char>,
    gap: Seq<char>,
)
    requires
        fits(menu, e),
        fill.len() == if text::decimal(number).len() < menu.n_max {
            menu.n_max - text::decimal(number).len()
        } else {
            0
        },
        forall|i: int| 0 <= i < fill.len() ==> #[trigger] fill[i] == ' ',
        gap.len() + vstd::utf8::encode_utf8(e.db).len() + vstd::utf8::encode_utf8(e.pkg).len()
            == menu.db_pkg_max + 1,
        forall|i: int| 0 <= i < gap.len() ==> #[trigger] gap[i] == ' ',
    ensures
        line(color, number, menu, e, painted_db, shown) == color.number_menu.prefix + fill
            + text::decimal(number) + color.number_menu.suffix + " "@ + color.bold.prefix
            + painted_db + "/"@ + color.bold.prefix + e.pkg + color.bold.suffix + gap
            + color.bold.suffix + " "@ + shown.0 + " -> "@ + shown.1,
{
    let n = text::right_aligned(text::decimal(number), menu.n_max);
    assert(n =~= fill + text::decimal(number));
    assert(gap =~= text::blanks((menu.db_pkg_max - taken(e) + 1) as nat));
    let db_pkg = painted_db + "/"@ + color.bold.painted(e.pkg) + gap;
    let head = color.number_menu.prefix + fill + text::decimal(number) + color.number_menu.suffix;
    let body = color.bold.prefix + painted_db + "/"@ + color.bold.prefix + e.pkg
        + color.bold.suffix + gap + color.bold.suffix;
    assert(color.number_menu.painted(n) =~= head);
    assert(color.bold.painted(db_pkg) =~= body);
    assert(head + " "@ + body =~= color.number_menu.prefix + fill + text::decimal(number)
        + color.number_menu.suffix + " "@ + color.bold.prefix + painted_db + "/"@
        + color.bold.prefix + e.pkg + color.bold.suffix + gap + color.bold.suffix);
}

/// The versions of an entry are shown against each other, the installed one filled up
/// with blanks to its column first.
pub proof fn law_shown_versions(color: ColorsView, menu: MenuView, e: EntryView, old: Seq<char>)
    requires
        old.len() == if e.old.len() < menu.old_max {
            menu.old_max
        } else {
            e.old.len()
        },
        old.take(e.old.len() as int) == e.old,
        forall|i: int| e.old.len() <= i < old.len() ==> #[trigger] old[i] == ' ',
    ensures
        shown_versions(color, menu, e) == version::diff(
            color,
            old,
            e.new,
            Seq::new(old.len(), |i: int| version::alphanumeric(old[i])),
        ),
{
    let filled = text::left_aligned(e.old, menu.old_max);
    assert forall|i: int| 0 <= i < old.len() implies old[i] == filled[i] by {
        if i < e.old.len() {
            assert(old.take(e.old.len() as int)[i] == e.old[i]);
        }
    }
    assert(old =~= filled);
    assert(version::classes(old) =~= Seq::new(
        old.len(),
        |i: int| version::alphanumeric(old[i]),
    ));
}

/// Upgrades, entries and menus are seen as they are.
pub proof fn law_menu_seen(c: Candidates, e: Entry, menu: Menu)
    ensures
        c@.repo == text::views(c.repo@),
        c@.aur == text::views(c.aur@),
        c@.devel == text::views(c.devel@),
        c@.pkgbuild == text::views(c.pkgbuild@),
        e@.pkg == e.pkg@,
        e@.db == e.db@,
        e@.old == e.old@,
        e@.new == e.new@,
        e@.word == e.word@,
        e@.width == e.width,
        e@.old_width == e.old_width,
        menu@.entries == text::views(menu.entries@),
        menu@.n_max == menu.n_max,
        menu@.db_pkg_max == menu.db_pkg_max,
        menu@.old_max == menu.old_max,
{
}

} // verus!
