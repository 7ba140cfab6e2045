//! The cooldown on AUR upgrades.

use crate::config::Config;
use crate::package::{AurUpdate, AurUpdateView};
use crate::seqs;
use crate::text;
use vstd::prelude::*;

verus! {

/// The seconds of a day.
pub const DAY: i64 = 86400;

/// The days of cooldown left at time `now`, for a package last modified at
/// `last_modified` and a window of `cooldown` days: none once the package is as old
/// as the window, else what is left of the window, rounded up to whole days. A
/// package modified in the future has used up nothing of its window. A window of 0
/// days is empty: nothing is ever left of it.
pub open spec fn days_left(last_modified: int, now: int, cooldown: int) -> Option<int> {
    let age = now - last_modified;
    let window = cooldown * DAY;
    if cooldown == 0 || age >= window {
        None
    } else {
        let elapsed = if age < 0 { 0 } else { age };
        Some((window - elapsed + DAY - 1) / (DAY as int))
    }
}

/// Returns how many whole days of cooldown remain for a package last modified at
/// `last_modified`, given the current time `now` and a `cooldown` window in days.
/// Returns `None` once the package is older than the cooldown (i.e. installable).
/// The remaining time is rounded up so "less than a day left" reports as 1. A
/// cooldown of 0 never holds a package, whenever it was modified.
pub fn cooldown_days_left(last_modified: i64, now: i64, cooldown: u64) -> (left: Option<u64>)
    ensures
        match left {
            None => days_left(last_modified as int, now as int, cooldown as int) is None,
            Some(days) => days_left(last_modified as int, now as int, cooldown as int) == Some(
                days as int,
            ),
        },
{
    let window: i128 = cooldown as i128 * DAY as i128;
    let age: i128 = now as i128 - last_modified as i128;
    if cooldown == 0 || age >= window {
        None
    } else {
        let elapsed: i128 = if age < 0 { 0 } else { age };
        let remaining: u128 = (window - elapsed) as u128;
        let days: u128 = (remaining + DAY as u128 - 1) / DAY as u128;
        proof {
            assert(days <= cooldown) by (nonlinear_arith)
                requires
                    remaining <= cooldown * 86400,
                    days == (remaining + 86399) / 86400,
            ;
        }
        Some(days as u64)
    }
}

/// An AUR upgrade that waits for its cooldown to end.
pub struct HeldBack {
    pub pkg: String,
    /// The installed version.
    pub old: String,
    /// The version that waits.
    pub new: String,
    /// The days left.
    pub days: u64,
}

#[verifier::ext_equal]
pub struct HeldBackView {
    pub pkg: Seq<char>,
    pub old: Seq<char>,
    pub new: Seq<char>,
    pub days: int,
}

impl View for HeldBack {
    type V = HeldBackView;

    open spec fn view(&self) -> HeldBackView {
        HeldBackView { pkg: self.pkg@, old: self.old@, new: self.new@, days: self.days as int }
    }
}

/// Whether the update `u` is held back at time `now`.
pub open spec fn held(u: AurUpdateView, now: int, cooldown: int, skip: Seq<Seq<char>>) -> bool {
    &&& !skip.contains(u.remote_name)
    &&& days_left(u.last_modified, now, cooldown) is Some
}

/// The updates that are not held back, in the order given.
pub open spec fn ready(
    updates: Seq<AurUpdateView>,
    now: int,
    cooldown: int,
    skip: Seq<Seq<char>>,
) -> Seq<AurUpdateView> {
    updates.filter(|u: AurUpdateView| !held(u, now, cooldown, skip))
}

/// What is reported of an update that is held back.
pub open spec fn notice(u: AurUpdateView, now: int, cooldown: int) -> HeldBackView {
    HeldBackView {
        pkg: u.local_name,
        old: u.local_version,
        new: u.remote_version,
        days: days_left(u.last_modified, now, cooldown).unwrap(),
    }
}

/// What is reported of the updates that are held back, in the order given.
pub open spec fn notices(
    updates: Seq<AurUpdateView>,
    now: int,
    cooldown: int,
    skip: Seq<Seq<char>>,
) -> Seq<HeldBackView> {
    updates.filter(|u: AurUpdateView| held(u, now, cooldown, skip)).map_values(
        |u: AurUpdateView| notice(u, now, cooldown),
    )
}

/// Takes out of `aur_upgrades` those held back at time `now`, and reports them.
pub fn cooldown_filter_at(
    config: &Config,
    now: i64,
    aur_upgrades: &mut Vec<AurUpdate>,
) -> (held_back: Vec<HeldBack>)
    ensures
        text::views(final(aur_upgrades)@) == ready(
            text::views(old(aur_upgrades)@),
            now as int,
            config.aur_cooldown as int,
            text::views(config.cooldown_skip@),
        ),
        text::views(held_back@) == notices(
            text::views(old(aur_upgrades)@),
            now as int,
            config.aur_cooldown as int,
            text::views(config.cooldown_skip@),
        ),
{
    let ghost skip = text::views(config.cooldown_skip@);
    let ghost t = now as int;
    let ghost window = config.aur_cooldown as int;
    let ghost is_held = |u: AurUpdateView| held(u, t, window, skip);
    let ghost is_ready = |u: AurUpdateView| !held(u, t, window, skip);
    let ghost noted = |u: AurUpdateView| notice(u, t, window);
    let ghost all = text::views(aur_upgrades@);
    let ghost mut seen: int = 0;
    let mut held_back: Vec<HeldBack> = Vec::new();
    let mut i: usize = 0;
    proof {
        reveal(Seq::filter);
        assert(all.take(0).filter(is_ready) + all.skip(0) =~= all);
        assert(all.take(0).filter(is_held).map_values(noted) =~= text::views(held_back@));
    }
    while i < aur_upgrades.len()
        invariant
            skip == text::views(config.cooldown_skip@),
            t == now,
            window == config.aur_cooldown,
            is_held == (|u: AurUpdateView| held(u, t, window, skip)),
            is_ready == (|u: AurUpdateView| !held(u, t, window, skip)),
            noted == (|u: AurUpdateView| notice(u, t, window)),
            0 <= seen <= all.len(),
            i == all.take(seen).filter(is_ready).len(),
            text::views(aur_upgrades@) == all.take(seen).filter(is_ready) + all.skip(seen),
            text::views(held_back@) == all.take(seen).filter(is_held).map_values(noted),
        decreases all.len() - seen,
    {
        let ghost u = all[seen];
        proof {
            assert(text::views(aur_upgrades@).len() == i + (all.len() - seen));
            assert(text::views(aur_upgrades@)[i as int] == all.skip(seen)[0]);
            assert(aur_upgrades@[i as int]@ == u);
            assert(all.take(seen + 1) =~= all.take(seen).push(u));
            seqs::lemma_filter_push(all.take(seen), u, is_ready);
            seqs::lemma_filter_push(all.take(seen), u, is_held);
        }
        let days = if text::contains_text(
            &config.cooldown_skip,
            &aur_upgrades[i].remote_name,
        ) {
            None
        } else {
            cooldown_days_left(aur_upgrades[i].last_modified, now, config.aur_cooldown)
        };
        match days {
            None => {
                i += 1;
                proof {
                    assert(all.take(seen).filter(is_ready).push(u) + all.skip(seen + 1)
                        =~= all.take(seen).filter(is_ready) + all.skip(seen));
                }
            },
            Some(days_left) => {
                let ghost before = aur_upgrades@;
                let pkg = aur_upgrades.remove(i);
                let ghost noted_before = held_back@;
                held_back.push(
                    HeldBack {
                        pkg: pkg.local_name,
                        old: pkg.local_version,
                        new: pkg.remote_version,
                        days: days_left,
                    },
                );
                proof {
                    assert(text::views(aur_upgrades@) =~= text::views(before).remove(i as int));
                    assert(text::views(aur_upgrades@) =~= all.take(seen).filter(is_ready)
                        + all.skip(seen + 1));
                    assert(text::views(held_back@) =~= text::views(noted_before).push(noted(u)));
                    assert(all.take(seen).filter(is_held).push(u).map_values(noted) =~= all.take(
                        seen,
                    ).filter(is_held).map_values(noted).push(noted(u)));
                }
            },
        }
        proof {
            seen = seen + 1;
        }
    }
    proof {
        assert(text::views(aur_upgrades@).len() == i + (all.len() - seen));
        assert(all.take(seen) =~= all);
        assert(all.take(seen).filter(is_ready) + all.skip(seen) =~= all.take(seen).filter(
            is_ready,
        ));
    }
    held_back
}

/// Calls `chrono::Utc::now` and `DateTime::timestamp`: the seconds since the Unix
/// epoch, by the clock of the machine. Nothing is claimed of the result. `now`
/// panics if that clock stands before the epoch.
#[verifier::external_body]
fn utc_timestamp() -> (now: i64) {
    chrono::Utc::now().timestamp()
}

/// Whether the clock of the machine can read `now`: it is what a reading may return.
pub closed spec fn clock_reads(now: i64) -> bool {
    call_ensures(utc_timestamp, (), now)
}

/// Hold back AUR upgrades whose AUR `last_modified` is newer than the configured
/// cooldown. This gives the community time to catch a malicious or broken update
/// before it lands on this machine. Held-back packages stay at their current
/// version and each one is reported. A cooldown of 0 disables this.
pub fn cooldown_filter(
    config: &Config,
    aur_upgrades: &mut Vec<AurUpdate>,
) -> (held_back: Vec<HeldBack>)
    ensures
        config.aur_cooldown == 0 ==> final(aur_upgrades)@ == old(aur_upgrades)@
            && held_back@.len() == 0,
        exists|now: i64|
            {
                &&& config.aur_cooldown != 0 ==> clock_reads(now)
                &&& text::views(final(aur_upgrades)@) == #[trigger] ready(
                    text::views(old(aur_upgrades)@),
                    now as int,
                    config.aur_cooldown as int,
                    text::views(config.cooldown_skip@),
                )
                &&& text::views(held_back@) == notices(
                    text::views(old(aur_upgrades)@),
                    now as int,
                    config.aur_cooldown as int,
                    text::views(config.cooldown_skip@),
                )
            },
{
    if config.aur_cooldown == 0 {
        let held_back: Vec<HeldBack> = Vec::new();
        proof {
            let all = text::views(aur_upgrades@);
            let skip = text::views(config.cooldown_skip@);
            law_cooldown_of_zero_holds_nothing(all, 0, skip);
            assert(text::views(aur_upgrades@) == ready(all, 0i64 as int, 0, skip));
            assert(text::views(held_back@) =~= notices(all, 0i64 as int, 0, skip));
        }
        return held_back;
    }
    let now = utc_timestamp();
    cooldown_filter_at(config, now, aur_upgrades)
}

/// A cooldown of 0 holds nothing back, at any time.
pub proof fn law_cooldown_of_zero_holds_nothing(
    updates: Seq<AurUpdateView>,
    now: int,
    skip: Seq<Seq<char>>,
)
    ensures
        ready(updates, now, 0, skip) == updates,
        notices(updates, now, 0, skip) == Seq::<HeldBackView>::empty(),
    decreases updates.len(),
{
    reveal(Seq::filter);
    if updates.len() > 0 {
        law_cooldown_of_zero_holds_nothing(updates.drop_last(), now, skip);
        assert(updates.drop_last().push(updates.last()) =~= updates);
        let f = |u: AurUpdateView| held(u, now, 0, skip);
        assert(updates.filter(f) =~= updates.drop_last().filter(f));
    }
    assert(notices(updates, now, 0, skip) =~= Seq::<HeldBackView>::empty());
}

/// With a cooldown of 0 a package can be installed, whenever it was modified.
pub proof fn law_window_of_zero(last_modified: int, now: int)
    ensures
        days_left(last_modified, now, 0) is None,
{
}

/// While a package is held back, between one day and the whole window is left.
pub proof fn law_days_left_within_window(last_modified: int, now: int, cooldown: int)
    requires
        cooldown >= 0,
    ensures
        match days_left(last_modified, now, cooldown) {
            Some(days) => 1 <= days <= cooldown,
            None => true,
        },
{
}

/// The days left are the least whole number of days that covers the time left.
pub proof fn law_days_left_rounds_up(last_modified: int, now: int, cooldown: int)
    requires
        last_modified <= now,
    ensures
        match days_left(last_modified, now, cooldown) {
            Some(days) => {
                let left = last_modified + cooldown * DAY - now;
                (days - 1) * DAY < left <= days * DAY
            },
            None => last_modified + cooldown * DAY <= now,
        },
{
}

/// A modification in the future holds a package back for the whole window.
pub proof fn law_future_modification_holds_window(last_modified: int, now: int, cooldown: int)
    requires
        now <= last_modified,
        cooldown > 0,
    ensures
        days_left(last_modified, now, cooldown) == Some(cooldown),
{
}

/// As time passes the days left never grow, and a package that can be installed stays
/// so.
pub proof fn law_waiting_shortens_cooldown(
    last_modified: int,
    now: int,
    later: int,
    cooldown: int,
)
    requires
        now <= later,
    ensures
        match (
            days_left(last_modified, now, cooldown),
            days_left(last_modified, later, cooldown),
        ) {
            (Some(before), Some(after)) => after <= before,
            (None, after) => after is None,
            (Some(_), None) => true,
        },
{
}

/// Each update is either held back and reported, or ready.
pub proof fn law_held_or_ready(
    updates: Seq<AurUpdateView>,
    now: int,
    cooldown: int,
    skip: Seq<Seq<char>>,
)
    ensures
        ready(updates, now, cooldown, skip).len() + notices(updates, now, cooldown, skip).len()
            == updates.len(),
        forall|u: AurUpdateView| #[trigger]
            ready(updates, now, cooldown, skip).contains(u) <==> updates.contains(u) && !held(
                u,
                now,
                cooldown,
                skip,
            ),
        forall|u: AurUpdateView| #[trigger]
            updates.contains(u) && held(u, now, cooldown, skip) ==> notices(
                updates,
                now,
                cooldown,
                skip,
            ).contains(notice(u, now, cooldown)),
    decreases updates.len(),
{
    let f = |u: AurUpdateView| held(u, now, cooldown, skip);
    let g = |u: AurUpdateView| !held(u, now, cooldown, skip);
    lemma_split_len(updates, f, g);
    assert forall|u: AurUpdateView| #[trigger] ready(updates, now, cooldown, skip).contains(
        u,
    ) <==> updates.contains(u) && !held(u, now, cooldown, skip) by {
        if updates.filter(g).contains(u) {
            seqs::lemma_filter_from(updates, g, u);
        }
        if updates.contains(u) && g(u) {
            let i = choose|i: int| 0 <= i < updates.len() && updates[i] == u;
            updates.lemma_filter_contains(g, i);
        }
    }
    assert forall|u: AurUpdateView| #[trigger]
        updates.contains(u) && held(u, now, cooldown, skip) implies notices(
        updates,
        now,
        cooldown,
        skip,
    ).contains(notice(u, now, cooldown)) by {
        let i = choose|i: int| 0 <= i < updates.len() && updates[i] == u;
        updates.lemma_filter_contains(f, i);
        let j = choose|j: int| 0 <= j < updates.filter(f).len() && updates.filter(f)[j] == u;
        assert(notices(updates, now, cooldown, skip)[j] == notice(u, now, cooldown));
    }
}

proof fn lemma_split_len<A>(s: Seq<A>, f: spec_fn(A) -> bool, g: spec_fn(A) -> bool)
    requires
        forall|x: A| #[trigger] f(x) == !g(x),
    ensures
        s.filter(f).len() + s.filter(g).len() == s.len(),
    decreases s.len(),
{
    reveal(Seq::filter);
    if s.len() > 0 {
        lemma_split_len(s.drop_last(), f, g);
        assert(f(s.last()) == !g(s.last()));
    }
}

/// A package that is named as an exception is never held back.
pub proof fn law_exceptions_are_ready(
    u: AurUpdateView,
    now: int,
    cooldown: int,
    skip: Seq<Seq<char>>,
)
    requires
        skip.contains(u.remote_name),
    ensures
        !held(u, now, cooldown, skip),
{
}

/// A package can be installed exactly when there is no cooldown or when it is as many
/// days old as the cooldown, a day being 86400 seconds. Until then the least number
/// of whole days that covers the rest of the time is left, or all of them if it was
/// modified in the future.
pub proof fn law_days_left(last_modified: int, now: int, cooldown: int)
    requires
        cooldown >= 0,
    ensures
        days_left(last_modified, now, cooldown) is None <==> cooldown == 0 || now - last_modified
            >= cooldown * 86400,
        match days_left(last_modified, now, cooldown) {
            Some(days) => if now < last_modified {
                days == cooldown
            } else {
                (days - 1) * 86400 < last_modified + cooldown * 86400 - now <= days * 86400
            },
            None => true,
        },
{
}

/// An update that is not an exception is held back exactly while it is younger than
/// the window.
pub proof fn law_held_while_young(
    u: AurUpdateView,
    now: int,
    cooldown: int,
    skip: Seq<Seq<char>>,
)
    requires
        cooldown >= 0,
    ensures
        held(u, now, cooldown, skip) <==> {
            &&& cooldown > 0
            &&& !skip.contains(u.remote_name)
            &&& now - u.last_modified < cooldown * 86400
        },
{
}

/// The filter lets through, in the order given, the updates that are exceptions or
/// as old as the window, or all of them without a cooldown.
pub proof fn law_filter_lets_old_through(
    updates: Seq<AurUpdateView>,
    now: int,
    cooldown: int,
    skip: Seq<Seq<char>>,
)
    requires
        cooldown >= 0,
    ensures
        ready(updates, now, cooldown, skip) == updates.filter(
            |u: AurUpdateView|
                cooldown == 0 || skip.contains(u.remote_name) || now - u.last_modified >= cooldown
                    * 86400,
        ),
{
    seqs::lemma_filter_same(
        updates,
        |u: AurUpdateView| !held(u, now, cooldown, skip),
        |u: AurUpdateView|
            cooldown == 0 || skip.contains(u.remote_name) || now - u.last_modified >= cooldown
                * 86400,
    );
}

/// The filter reports, in the order given, each update that is younger than the
/// window and no exception: its name, its versions and the days left.
pub proof fn law_filter_reports_young(
    updates: Seq<AurUpdateView>,
    now: int,
    cooldown: int,
    skip: Seq<Seq<char>>,
)
    requires
        cooldown > 0,
    ensures
        ({
            let young = updates.filter(
                |u: AurUpdateView|
                    !skip.contains(u.remote_name) && now - u.last_modified < cooldown * 86400,
            );
            let reported = notices(updates, now, cooldown, skip);
            &&& reported.len() == young.len()
            &&& forall|i: int|
                0 <= i < young.len() ==> {
                    let r = #[trigger] reported[i];
                    let u = young[i];
                    &&& r.pkg == u.local_name
                    &&& r.old == u.local_version
                    &&& r.new == u.remote_version
                    &&& days_left(u.last_modified, now, cooldown) == Some(r.days)
                }
        }),
{
    let f = |u: AurUpdateView| held(u, now, cooldown, skip);
    let g = |u: AurUpdateView|
        !skip.contains(u.remote_name) && now - u.last_modified < cooldown * 86400;
    seqs::lemma_filter_same(updates, f, g);
    let young = updates.filter(g);
    let reported = notices(updates, now, cooldown, skip);
    assert forall|i: int| 0 <= i < young.len() implies {
        let r = #[trigger] reported[i];
        let u = young[i];
        &&& r.pkg == u.local_name
        &&& r.old == u.local_version
        &&& r.new == u.remote_version
        &&& days_left(u.last_modified, now, cooldown) == Some(r.days)
    } by {
        updates.lemma_filter_pred(g, i);
    }
}

/// What is reported is seen as it is.
pub proof fn law_held_back_seen(held_back: HeldBack)
    ensures
        held_back@.pkg == held_back.pkg@,
        held_back@.old == held_back.old@,
        held_back@.new == held_back.new@,
        held_back@.days == held_back.days,
{
}

/// A time counts as read off the clock only if a reading of it may return it.
proof fn law_clock_is_read(now: i64)
    ensures
        clock_reads(now) ==> call_ensures(utc_timestamp, (), now),
{
}

} // verus!
