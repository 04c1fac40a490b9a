//! Checks on a loaded configuration, and the choice of the profile to run.
use vstd::prelude::*;

use crate::hosts::views;
use crate::profile::{parse_url, url_host, url_scheme, Profile};
use crate::text::same_text;

verus! {

/// A website can be blocked: an http or https URL with a host.
pub open spec fn website_ok(url: Seq<char>) -> bool {
    &&& (url_scheme(url) == Some("http"@) || url_scheme(url) == Some("https"@))
    &&& url_host(url) is Some
}

/// Why a configuration or a website in it is refused.
#[derive(Debug, PartialEq, Eq, Structural)]
pub enum ConfigError {
    /// The URL is not http or https.
    BadScheme,
    /// The URL has no host.
    NoHost,
    /// Two profiles have the same name.
    DuplicateProfile,
    /// The default profile names no profile.
    UnknownDefault,
    /// A website of a profile is refused.
    InvalidWebsite { profile: usize, website: usize },
    /// No profile was asked for and there is no default.
    NoProfileChosen,
    /// No profile has the name asked for.
    UnknownProfile,
}

/// Checks that `url` is an http or https URL with a host.
pub fn validate_website(url: &str) -> (r: Result<(), ConfigError>)
    ensures
        r is Ok <==> website_ok(url@),
        r == Err::<(), ConfigError>(ConfigError::BadScheme) <==> !(url_scheme(url@) == Some("http"@)
            || url_scheme(url@) == Some("https"@)),
        r == Err::<(), ConfigError>(ConfigError::NoHost) <==> ((url_scheme(url@) == Some("http"@)
            || url_scheme(url@) == Some("https"@)) && url_host(url@) is None),
{
    match parse_url(url) {
        Some((scheme, host)) => {
            if !(same_text(scheme.as_str(), "http") || same_text(scheme.as_str(), "https")) {
                Err(ConfigError::BadScheme)
            } else if host.is_none() {
                Err(ConfigError::NoHost)
            } else {
                Ok(())
            }
        },
        None => Err(ConfigError::BadScheme),
    }
}

/// A profile under its name.
pub struct NamedProfile {
    pub name: String,
    pub profile: Profile,
}

/// The profiles of the configuration file, and the one to run when none is
/// named.
pub struct EnoughConfig {
    pub default_profile: Option<String>,
    pub profiles: Vec<NamedProfile>,
}

/// The index of the profile named `name`, if any, the first of them.
pub open spec fn index_of(profiles: Seq<NamedProfile>, name: Seq<char>) -> Option<int> {
    if exists|i: int| 0 <= i < profiles.len() && (#[trigger] profiles[i]).name@ == name {
        Some(
            choose|i: int|
                0 <= i < profiles.len() && (#[trigger] profiles[i]).name@ == name && forall|j: int|
                    0 <= j < i ==> (#[trigger] profiles[j]).name@ != name,
        )
    } else {
        None
    }
}

/// No two profiles have the same name.
pub open spec fn names_unique(profiles: Seq<NamedProfile>) -> bool {
    forall|a: int, b: int|
        0 <= a < profiles.len() && 0 <= b < profiles.len() && a != b ==> (#[trigger] profiles[a]).name@
            != (#[trigger] profiles[b]).name@
}

/// The default profile, if set, names no profile.
pub open spec fn default_missing(c: EnoughConfig) -> bool {
    c.default_profile matches Some(d) && index_of(c.profiles@, d@) is None
}

/// Every website of every profile can be blocked.
pub open spec fn websites_ok(profiles: Seq<NamedProfile>) -> bool {
    forall|i: int, j: int|
        0 <= i < profiles.len() && 0 <= j < profiles[i].profile.websites.len() ==> website_ok(
            #[trigger] profiles[i].profile.websites@[j]@,
        )
}

impl EnoughConfig {
    /// The index of the profile named `name`, the first if several are.
    pub fn find_profile(&self, name: &str) -> (r: Option<usize>)
        ensures
            match r {
                Some(i) => index_of(self.profiles@, name@) == Some(i as int),
                None => index_of(self.profiles@, name@) is None,
            },
    {
        let mut i: usize = 0;
        while i < self.profiles.len()
            invariant
                i <= self.profiles.len(),
                forall|j: int| 0 <= j < i ==> (#[trigger] self.profiles@[j]).name@ != name@,
            decreases self.profiles.len() - i,
        {
            if same_text(self.profiles[i].name.as_str(), name) {
                proof {
                    let ps = self.profiles@;
                    assert(ps[i as int].name@ == name@);
                    let k = choose|k: int|
                        0 <= k < ps.len() && (#[trigger] ps[k]).name@ == name@ && forall|j: int|
                            0 <= j < k ==> (#[trigger] ps[j]).name@ != name@;
                    if k < i {
                    } else if k > i {
                        assert(ps[i as int].name@ != name@);
                    }
                }
                return Some(i);
            }
            i += 1;
        }
        None
    }

    /// Checks that no two profiles share a name, then that the default
    /// profile, if set, names a profile, and then that every website of every
    /// profile is an http or https URL with a host; the first refused website,
    /// by profile and then by position, is reported.
    pub fn validate(&self) -> (r: Result<(), ConfigError>)
        ensures
            r == Err::<(), ConfigError>(ConfigError::DuplicateProfile) <==> !names_unique(self.profiles@),
            r == Err::<(), ConfigError>(ConfigError::UnknownDefault) <==> (names_unique(self.profiles@)
                && default_missing(*self)),
            r is Ok <==> (names_unique(self.profiles@) && !default_missing(*self) && websites_ok(
                self.profiles@,
            )),
            r matches Err(ConfigError::InvalidWebsite { profile, website }) ==> {
                &&& profile < self.profiles.len()
                &&& website < self.profiles@[profile as int].profile.websites.len()
                &&& !website_ok(self.profiles@[profile as int].profile.websites@[website as int]@)
                &&& forall|a: int, b: int|
                    0 <= a < profile && 0 <= b < self.profiles@[a].profile.websites.len()
                        ==> website_ok(#[trigger] self.profiles@[a].profile.websites@[b]@)
                &&& forall|b: int|
                    0 <= b < website ==> website_ok(
                        #[trigger] self.profiles@[profile as int].profile.websites@[b]@,
                    )
            },
            r is Err ==> (r matches Err(ConfigError::InvalidWebsite { .. })) || r == Err::<
                (),
                ConfigError,
            >(ConfigError::UnknownDefault) || r == Err::<(), ConfigError>(ConfigError::DuplicateProfile),
    {
        let ghost ps = self.profiles@;
        let mut i: usize = 0;
        while i < self.profiles.len()
            invariant
                ps == self.profiles@,
                i <= ps.len(),
                forall|a: int, b: int|
                    0 <= a < i && 0 <= b < i && a != b ==> (#[trigger] ps[a]).name@ != (
                    #[trigger] ps[b]).name@,
            decreases ps.len() - i,
        {
            let mut j: usize = 0;
            while j < i
                invariant
                    ps == self.profiles@,
                    j <= i < ps.len(),
                    forall|a: int, b: int|
                        0 <= a < i && 0 <= b < i && a != b ==> (#[trigger] ps[a]).name@ != (
                        #[trigger] ps[b]).name@,
                    forall|b: int| 0 <= b < j ==> (#[trigger] ps[b]).name@ != ps[i as int].name@,
                decreases i - j,
            {
                if same_text(self.profiles[j].name.as_str(), self.profiles[i].name.as_str()) {
                    assert(!names_unique(ps)) by {
                        assert(ps[j as int].name@ == ps[i as int].name@);
                    }
                    return Err(ConfigError::DuplicateProfile);
                }
                j += 1;
            }
            i += 1;
        }
        match &self.default_profile {
            Some(d) => {
                if self.find_profile(d.as_str()).is_none() {
                    assert(names_unique(ps));
                    return Err(ConfigError::UnknownDefault);
                }
            },
            None => {},
        }
        assert(names_unique(ps));
        let mut i: usize = 0;
        while i < self.profiles.len()
            invariant
                i <= self.profiles.len(),
                names_unique(self.profiles@),
                !(self.default_profile matches Some(d) && index_of(self.profiles@, d@) is None),
                forall|a: int, b: int|
                    0 <= a < i && 0 <= b < self.profiles@[a].profile.websites.len() ==> website_ok(
                        #[trigger] self.profiles@[a].profile.websites@[b]@,
                    ),
            decreases self.profiles.len() - i,
        {
            let websites = &self.profiles[i].profile.websites;
            let mut j: usize = 0;
            while j < websites.len()
                invariant
                    i < self.profiles.len(),
                    names_unique(self.profiles@),
                    !(self.default_profile matches Some(d) && index_of(self.profiles@, d@) is None),
                    websites == &self.profiles@[i as int].profile.websites,
                    j <= websites.len(),
                    forall|a: int, b: int|
                        0 <= a < i && 0 <= b < self.profiles@[a].profile.websites.len() ==> website_ok(
                            #[trigger] self.profiles@[a].profile.websites@[b]@,
                        ),
                    forall|b: int| 0 <= b < j ==> website_ok(#[trigger] websites@[b]@),
                decreases websites.len() - j,
            {
                if validate_website(websites[j].as_str()).is_err() {
                    return Err(ConfigError::InvalidWebsite { profile: i, website: j });
                }
                j += 1;
            }
            i += 1;
        }
        Ok(())
    }

    /// The index of the profile to run: the one named by `requested`, else the
    /// default one.
    pub fn select_profile(&self, requested: Option<&str>) -> (r: Result<usize, ConfigError>)
        ensures
            match requested {
                Some(n) => match index_of(self.profiles@, n@) {
                    Some(i) => r == Ok::<usize, ConfigError>(i as usize),
                    None => r == Err::<usize, ConfigError>(ConfigError::UnknownProfile),
                },
                None => match self.default_profile {
                    Some(d) => match index_of(self.profiles@, d@) {
                        Some(i) => r == Ok::<usize, ConfigError>(i as usize),
                        None => r == Err::<usize, ConfigError>(ConfigError::UnknownProfile),
                    },
                    None => r == Err::<usize, ConfigError>(ConfigError::NoProfileChosen),
                },
            },
    {
        let found = match requested {
            Some(n) => self.find_profile(n),
            None => match &self.default_profile {
                Some(d) => self.find_profile(d.as_str()),
                None => {
                    return Err(ConfigError::NoProfileChosen);
                },
            },
        };
        match found {
            Some(i) => Ok(i),
            None => Err(ConfigError::UnknownProfile),
        }
    }
}

} // verus!
