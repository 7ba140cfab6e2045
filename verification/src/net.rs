//! What is asked of the network.

use crate::config::Config;
use vstd::prelude::*;

verus! {

/// A line that tells the user what is being looked for.
pub enum Announcement {
    Pkgbuild,
    Aur,
    Devel,
}

/// A search for updates.
pub struct ResolverRequest {
    /// What the user is told first.
    pub announce: Vec<Announcement>,
    /// The databases whose packages are looked up; `None` for the installed packages
    /// that no database holds.
    pub dbs: Option<Vec<String>>,
}

/// A search for new commits.
pub struct DevelRequest {
    /// What the user is told first.
    pub announce: Vec<Announcement>,
}

/// Both searches; one that is `None` is not made and finds nothing.
pub struct NetRequest {
    pub resolver: Option<ResolverRequest>,
    pub devel: Option<DevelRequest>,
}

/// What the user is told before updates are searched for.
pub open spec fn resolver_announcements(config: Config) -> Seq<Announcement> {
    if !config.mode.pkgbuild {
        Seq::empty()
    } else if !config.mode.aur {
        seq![Announcement::Pkgbuild]
    } else {
        seq![Announcement::Pkgbuild, Announcement::Aur]
    }
}

/// Whether new commits are searched for.
pub open spec fn searches_devel(config: Config) -> bool {
    config.devel && (config.mode.aur || config.mode.pkgbuild)
}

/// The search for updates. `aur_dbs` names the local repositories of built AUR
/// packages; they are searched where there are such repositories. A silent run makes
/// no search.
pub fn get_resolver_upgrades(
    config: &Config,
    aur_dbs: Vec<String>,
    print: bool,
) -> (request: Option<ResolverRequest>)
    ensures
        request is Some <==> print,
        match request {
            Some(r) => {
                &&& r.announce@ == resolver_announcements(*config)
                &&& r.dbs == if config.local_repos {
                    Some(aur_dbs)
                } else {
                    None
                }
            },
            None => true,
        },
{
    if !print {
        return None;
    }
    let mut announce: Vec<Announcement> = Vec::new();
    if config.mode.pkgbuild {
        announce.push(Announcement::Pkgbuild);
        if config.mode.aur {
            announce.push(Announcement::Aur);
        }
    }
    let dbs = if config.local_repos {
        Some(aur_dbs)
    } else {
        None
    };
    proof {
        assert(announce@ =~= resolver_announcements(*config));
    }
    Some(ResolverRequest { announce, dbs })
}

/// The search for new commits.
pub fn get_devel_upgrades(config: &Config, print: bool) -> (request: Option<DevelRequest>)
    ensures
        request is Some <==> config.devel && (config.mode.aur || config.mode.pkgbuild),
        request is Some <==> searches_devel(*config),
        match request {
            Some(r) => r.announce@ == if print {
                seq![Announcement::Devel]
            } else {
                Seq::empty()
            },
            None => true,
        },
{
    if !config.devel || (!config.mode.aur && !config.mode.pkgbuild) {
        return None;
    }
    let mut announce: Vec<Announcement> = Vec::new();
    if print {
        announce.push(Announcement::Devel);
    }
    proof {
        assert(announce@ =~= if print {
            seq![Announcement::Devel]
        } else {
            Seq::empty()
        });
    }
    Some(DevelRequest { announce })
}

/// Both searches.
pub fn net_upgrades(config: &Config, aur_dbs: Vec<String>, print: bool) -> (request: NetRequest)
    ensures
        request.resolver is Some <==> print,
        match request.resolver {
            Some(r) => {
                &&& r.announce@ == resolver_announcements(*config)
                &&& r.dbs == if config.local_repos {
                    Some(aur_dbs)
                } else {
                    None
                }
            },
            None => true,
        },
        request.devel is Some <==> config.devel && (config.mode.aur || config.mode.pkgbuild),
        request.devel is Some <==> searches_devel(*config),
        match request.devel {
            Some(r) => r.announce@ == if print {
                seq![Announcement::Devel]
            } else {
                Seq::empty()
            },
            None => true,
        },
{
    NetRequest {
        resolver: get_resolver_upgrades(config, aur_dbs, print),
        devel: get_devel_upgrades(config, print),
    }
}

/// New commits are searched for exactly when that is turned on and AUR or PKGBUILD
/// packages are asked for. Nothing else makes a difference, the sync repositories
/// least of all.
pub proof fn law_devel_search(config: Config)
    ensures
        searches_devel(config) <==> config.devel && (config.mode.aur || config.mode.pkgbuild),
{
}

/// The search for PKGBUILD updates is announced when PKGBUILDs are asked for, and
/// then, behind it, the one in the AUR when AUR packages are asked for as well.
/// Without PKGBUILDs nothing is announced.
pub proof fn law_search_announced(config: Config)
    ensures
        !config.mode.pkgbuild ==> resolver_announcements(config).len() == 0,
        config.mode.pkgbuild && !config.mode.aur ==> resolver_announcements(config).len() == 1,
        config.mode.pkgbuild && config.mode.aur ==> resolver_announcements(config).len() == 2
            && resolver_announcements(config)[1] is Aur,
        config.mode.pkgbuild ==> resolver_announcements(config)[0] is Pkgbuild,
{
}

/// Two settings that agree on what is asked for of the AUR and of PKGBUILDs, and on
/// new commits, lead to the same searches.
pub proof fn law_search_goes_by_few_settings(a: Config, b: Config)
    requires
        a.mode.aur == b.mode.aur,
        a.mode.pkgbuild == b.mode.pkgbuild,
        a.devel == b.devel,
    ensures
        searches_devel(a) == searches_devel(b),
        resolver_announcements(a) == resolver_announcements(b),
{
}

} // verus!
