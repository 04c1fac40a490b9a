//! Profiles, the record of the active block, and the hosts named by a
//! profile's websites.
use vstd::prelude::*;

use crate::hosts::{valid_host, views};

verus! {

/// What `url::Url::parse` followed by `Url::host_str` gives for a text: the
/// host, or `None` where the text is no URL or the URL has no host.
pub uninterp spec fn url_host(url: Seq<char>) -> Option<Seq<char>>;

/// What `url::Url::parse` followed by `Url::scheme` gives for a text: the
/// scheme, or `None` where the text is no URL.
pub uninterp spec fn url_scheme(url: Seq<char>) -> Option<Seq<char>>;

/// Relies on `url::Url::parse`, with `Url::scheme` and `Url::host_str` on its
/// result: the scheme and the host of the URL, which depend on the text alone.
/// A text that does not parse has neither. The parser drops tabs and line
/// breaks from its input and refuses a host with `#` in it.
#[verifier::external_body]
pub(crate) fn parse_url(url: &str) -> (r: Option<(String, Option<String>)>)
    ensures
        match r {
            Some((scheme, host)) => url_scheme(url@) == Some(scheme@) && match host {
                Some(h) => url_host(url@) == Some(h@) && valid_host(h@),
                None => url_host(url@) is None,
            },
            None => url_scheme(url@) is None && url_host(url@) is None,
        },
{
    match url::Url::parse(url) {
        Ok(u) => Some((u.scheme().to_string(), u.host_str().map(str::to_string))),
        Err(_) => None,
    }
}

/// The host of `url`, if it is a URL with one.
pub fn website_host(url: &str) -> (r: Option<String>)
    ensures
        match r {
            Some(h) => url_host(url@) == Some(h@) && valid_host(h@),
            None => url_host(url@) is None,
        },
{
    match parse_url(url) {
        Some((_, host)) => host,
        None => None,
    }
}

/// The hosts of `urls`, in order, leaving out those without one.
pub open spec fn hosts_of(urls: Seq<Seq<char>>) -> Seq<Seq<char>>
    decreases urls.len(),
{
    if urls.len() == 0 {
        seq![]
    } else {
        match url_host(urls.last()) {
            Some(h) => hosts_of(urls.drop_last()).push(h),
            None => hosts_of(urls.drop_last()),
        }
    }
}

/// The hosts of the given website URLs, in order; a URL without a host is
/// skipped.
pub fn website_hosts(websites: &Vec<String>) -> (r: Vec<String>)
    ensures
        views(r@) == hosts_of(views(websites@)),
        forall|i: int| 0 <= i < r@.len() ==> valid_host(#[trigger] r@[i]@),
{
    let ghost w = views(websites@);
    let mut r: Vec<String> = Vec::new();
    for i in 0..websites.len()
        invariant
            w == views(websites@),
            views(r@) == hosts_of(w.take(i as int)),
            forall|k: int| 0 <= k < r@.len() ==> valid_host(#[trigger] r@[k]@),
    {
        let ghost before = r@;
        let host = website_host(websites[i].as_str());
        proof {
            assert(w.take(i + 1).drop_last() =~= w.take(i as int));
            assert(w.take(i + 1).last() == websites@[i as int]@);
        }
        match host {
            Some(h) => {
                r.push(h);
                assert(views(r@) =~= views(before).push(r@.last()@));
            },
            None => {},
        }
    }
    assert(w.take(websites.len() as int) =~= w);
    r
}

/// Copies strings one by one.
pub fn copy_strings(v: &Vec<String>) -> (r: Vec<String>)
    ensures
        views(r@) == views(v@),
{
    let mut r: Vec<String> = Vec::new();
    for i in 0..v.len()
        invariant
            views(r@) == views(v@).take(i as int),
    {
        let ghost before = r@;
        let s = v[i].clone();
        assert(s == v@[i as int]);
        r.push(s);
        assert(views(r@) =~= views(before).push(s@));
        assert(views(v@).take(i + 1) =~= views(v@).take(i as int).push(v@[i as int]@));
    }
    assert(views(v@).take(v.len() as int) =~= views(v@));
    r
}

/// A named blocking policy: how long a block lasts, which websites it makes
/// unreachable, and which applications it names (kept, not enforced).
pub struct Profile {
    pub duration_secs: u64,
    /// Website URLs, in the order given.
    pub websites: Vec<String>,
    /// Application paths.
    pub apps: Vec<String>,
}

pub struct ProfileView {
    pub duration_secs: u64,
    pub websites: Seq<Seq<char>>,
    pub apps: Seq<Seq<char>>,
}

impl View for Profile {
    type V = ProfileView;

    open spec fn view(&self) -> ProfileView {
        ProfileView {
            duration_secs: self.duration_secs,
            websites: views(self.websites@),
            apps: views(self.apps@),
        }
    }
}

impl Profile {
    /// A copy of the profile, taken when a block starts so that later edits of
    /// the configuration do not reach the active block.
    pub fn snapshot(&self) -> (r: Profile)
        ensures
            r@ == self@,
    {
        Profile {
            duration_secs: self.duration_secs,
            websites: copy_strings(&self.websites),
            apps: copy_strings(&self.apps),
        }
    }
}

/// The record of the active block: the profile's name, a copy of the profile,
/// and the absolute unblock time in seconds since the Unix epoch.
pub struct BlockState {
    pub profile_name: String,
    pub profile: Profile,
    pub unblock_time_secs: u64,
}

pub struct BlockStateView {
    pub profile_name: Seq<char>,
    pub profile: ProfileView,
    pub unblock_time_secs: u64,
}

impl View for BlockState {
    type V = BlockStateView;

    open spec fn view(&self) -> BlockStateView {
        BlockStateView {
            profile_name: self.profile_name@,
            profile: self.profile@,
            unblock_time_secs: self.unblock_time_secs,
        }
    }
}

} // verus!
