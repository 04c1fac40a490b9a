use enough::config::{validate_website, ConfigError, EnoughConfig, NamedProfile};
use enough::profile::Profile;

fn profile(websites: &[&str]) -> Profile {
    Profile { duration_secs: 60, websites: websites.iter().map(|s| s.to_string()).collect(), apps: vec![] }
}

fn config(default: Option<&str>) -> EnoughConfig {
    EnoughConfig {
        default_profile: default.map(|s| s.to_string()),
        profiles: vec![
            NamedProfile { name: "lock-in".to_string(), profile: profile(&["https://www.youtube.com", "https://reddit.com"]) },
            NamedProfile { name: "wind-down".to_string(), profile: profile(&["http://github.com"]) },
        ],
    }
}

#[test]
fn website_with_http_scheme_and_host_is_accepted() {
    assert_eq!(validate_website("https://reddit.com"), Ok(()));
    assert_eq!(validate_website("http://example.org/path"), Ok(()));
}

#[test]
fn website_with_other_scheme_is_refused() {
    assert_eq!(validate_website("ftp://example.org"), Err(ConfigError::BadScheme));
    assert_eq!(validate_website("not a url"), Err(ConfigError::BadScheme));
}

#[test]
fn website_with_empty_host_does_not_parse() {
    assert_eq!(validate_website("https://"), Err(ConfigError::BadScheme));
}

#[test]
fn valid_config_passes() {
    assert_eq!(config(Some("lock-in")).validate(), Ok(()));
    assert_eq!(config(None).validate(), Ok(()));
}

#[test]
fn unknown_default_is_refused() {
    assert_eq!(config(Some("nap")).validate(), Err(ConfigError::UnknownDefault));
}

#[test]
fn invalid_website_is_located() {
    let mut c = config(None);
    c.profiles[1].profile.websites.push("ftp://files.example".to_string());
    assert_eq!(c.validate(), Err(ConfigError::InvalidWebsite { profile: 1, website: 1 }));
}

#[test]
fn duplicate_profile_names_are_refused() {
    let mut c = config(Some("lock-in"));
    c.profiles.push(NamedProfile { name: "lock-in".to_string(), profile: profile(&[]) });
    assert_eq!(c.validate(), Err(ConfigError::DuplicateProfile));
}

#[test]
fn first_invalid_website_is_reported() {
    let mut c = config(None);
    c.profiles[0].profile.websites.push("ftp://a.example".to_string());
    c.profiles[1].profile.websites.insert(0, "gopher://b.example".to_string());
    assert_eq!(c.validate(), Err(ConfigError::InvalidWebsite { profile: 0, website: 2 }));
}

#[test]
fn profile_selection() {
    let c = config(Some("wind-down"));
    assert_eq!(c.select_profile(Some("lock-in")), Ok(0));
    assert_eq!(c.select_profile(None), Ok(1));
    assert_eq!(c.select_profile(Some("nap")), Err(ConfigError::UnknownProfile));
    assert_eq!(config(None).select_profile(None), Err(ConfigError::NoProfileChosen));
    assert_eq!(c.find_profile("wind-down"), Some(1));
    assert_eq!(c.find_profile("x"), None);
}
