//! Browser configuration entries and W3C capability matching.

use vstd::prelude::*;
use crate::error::XenonError;
use crate::strutil::str_eq;
use vstd::pervasive::unreached;

verus! {

/// The Unicode lowercasing of a string, as `str::to_lowercase` computes it.
pub uninterp spec fn lower_of(s: Seq<char>) -> Seq<char>;

/// Relies on str::to_lowercase: the result is a function of the characters
/// alone.
#[verifier::external_body]
fn lowercase(s: &str) -> (r: String)
    ensures
        r@ == lower_of(s@),
{
    s.to_lowercase()
}

pub fn default_sessions_per_driver() -> (r: u32)
    ensures
        r == 1,
{
    1
}

pub fn default_max_sessions() -> (r: u32)
    ensures
        r == 5,
{
    5
}

/// The default driver binary for a browser name, for browsers that have one.
pub open spec fn spec_default_webdriver(name: Seq<char>) -> Option<Seq<char>> {
    if name == "firefox"@ {
        Some("geckodriver"@)
    } else if name == "chrome"@ {
        Some("chromedriver"@)
    } else {
        None
    }
}

pub fn default_webdriver(browser: &str) -> (r: Option<&'static str>)
    ensures
        r.deep_view() == spec_default_webdriver(browser@),
{
    if str_eq(browser, "firefox") {
        Some("geckodriver")
    } else if str_eq(browser, "chrome") {
        Some("chromedriver")
    } else {
        None
    }
}

/// The mathematical value of a `BrowserConfig`.
pub struct BrowserConfigView {
    pub name: Seq<char>,
    pub version: Option<Seq<char>>,
    pub os: Option<Seq<char>>,
    pub driver_path: Option<Seq<char>>,
    pub args: Option<Seq<Seq<char>>>,
    pub sessions_per_driver: u32,
    pub max_sessions: u32,
}

/// One configured browser entry: which capability requests it serves, which
/// driver binary to run, and its session limits.
#[derive(Debug)]
pub struct BrowserConfig {
    pub name: String,
    pub version: Option<String>,
    pub os: Option<String>,
    /// After `sanitize`, always holds the path of a webdriver binary,
    /// configured or defaulted from the browser name.
    pub driver_path: Option<String>,
    pub args: Option<Vec<String>>,
    pub sessions_per_driver: u32,
    pub max_sessions: u32,
}

/// The capability triple a client asks for under `alwaysMatch`.
#[derive(Debug)]
pub struct BrowserMatch {
    pub browser_name: String,
    pub browser_version: Option<String>,
    pub platform_name: Option<String>,
}

/// The inbound match key parsed from a new-session request.
#[derive(Debug)]
pub struct Capabilities {
    pub always_match: BrowserMatch,
}

impl Capabilities {
    pub fn new(browser_name: String, browser_version: Option<String>, platform_name: Option<String>) -> (r: Self)
        ensures
            r.always_match.browser_name == browser_name,
            r.always_match.browser_version == browser_version,
            r.always_match.platform_name == platform_name,
    {
        Capabilities {
            always_match: BrowserMatch { browser_name, browser_version, platform_name },
        }
    }

    pub fn browser_name(&self) -> (r: &String)
        ensures
            r == &self.always_match.browser_name,
    {
        &self.always_match.browser_name
    }

    pub fn browser_version(&self) -> (r: &Option<String>)
        ensures
            r == &self.always_match.browser_version,
    {
        &self.always_match.browser_version
    }

    pub fn platform_name(&self) -> (r: &Option<String>)
        ensures
            r == &self.always_match.platform_name,
    {
        &self.always_match.platform_name
    }
}

/// Whether a configured browser satisfies a capability request:
/// names must agree case-insensitively; a non-empty requested version must
/// equal the configured version exactly; a requested platform other than
/// `"any"` must equal the configured platform case-insensitively. A missing
/// request field is a wildcard; a missing configured field matches only a
/// missing (or wildcard) request field.
pub open spec fn spec_matches_capabilities(b: &BrowserConfig, c: &Capabilities) -> bool {
    &&& lower_of(b.name@) == lower_of(c.always_match.browser_name@)
    &&& match c.always_match.browser_version {
        Some(ref v) => v@.len() == 0 || match b.version {
            Some(ref bv) => bv@ == v@,
            None => false,
        },
        None => true,
    }
    &&& match c.always_match.platform_name {
        Some(ref p) => lower_of(p@) == "any"@ || match b.os {
            Some(ref os) => lower_of(os@) == lower_of(p@),
            None => false,
        },
        None => true,
    }
}

impl DeepView for BrowserConfig {
    type V = BrowserConfigView;

    open spec fn deep_view(&self) -> BrowserConfigView {
        BrowserConfigView {
            name: self.name@,
            version: self.version.deep_view(),
            os: self.os.deep_view(),
            driver_path: self.driver_path.deep_view(),
            args: self.args.deep_view(),
            sessions_per_driver: self.sessions_per_driver,
            max_sessions: self.max_sessions,
        }
    }
}

impl Clone for BrowserConfig {
    fn clone(&self) -> (r: Self)
        ensures
            r.deep_view() == self.deep_view(),
    {
        let r = BrowserConfig {
            name: self.name.clone(),
            version: self.version.clone(),
            os: self.os.clone(),
            driver_path: self.driver_path.clone(),
            args: clone_opt_args(&self.args),
            sessions_per_driver: self.sessions_per_driver,
            max_sessions: self.max_sessions,
        };
        proof {
            assert(r.version.deep_view() =~~= self.version.deep_view());
            assert(r.os.deep_view() =~~= self.os.deep_view());
            assert(r.driver_path.deep_view() =~~= self.driver_path.deep_view());
            assert(r.args.deep_view() =~~= self.args.deep_view());
            assert(r.deep_view() =~~= self.deep_view());
        }
        r
    }
}

/// Clone an optional argument list.
fn clone_opt_args(args: &Option<Vec<String>>) -> (r: Option<Vec<String>>)
    ensures
        r.deep_view() == args.deep_view(),
{
    match args {
        Some(v) => {
            let mut out: Vec<String> = Vec::new();
            let n = v.len();
            let mut i: usize = 0;
            while i < n
                invariant
                    n == v@.len(),
                    i <= n,
                    out@.len() == i,
                    out.deep_view() == v.deep_view().take(i as int),
                decreases n - i,
            {
                let c = v[i].clone();
                proof {
                    assert(c == v@[i as int]);
                }
                out.push(c);
                proof {
                    assert(out@[i as int] == v@[i as int]);
                    assert(out.deep_view() =~~= v.deep_view().take(i + 1));
                    assert(out.deep_view() == v.deep_view().take(i + 1));
                }
                i += 1;
            }
            proof {
                assert(v.deep_view().take(n as int) =~~= v.deep_view());
            }
            Some(out)
        },
        None => None,
    }
}

impl BrowserConfig {
    pub fn new(
        name: String,
        version: Option<String>,
        os: Option<String>,
        driver_path: Option<String>,
        args: Option<Vec<String>>,
        sessions_per_driver: u32,
        max_sessions: u32,
    ) -> (r: Self)
        ensures
            r == (BrowserConfig {
                name,
                version,
                os,
                driver_path,
                args,
                sessions_per_driver,
                max_sessions,
            }),
    {
        BrowserConfig { name, version, os, driver_path, args, sessions_per_driver, max_sessions }
    }

    pub fn name(&self) -> (r: &String)
        ensures
            r == &self.name,
    {
        &self.name
    }

    /// The driver binary to spawn. Only meaningful after `sanitize`.
    pub fn driver_path(&self) -> (r: &String)
        requires
            self.driver_path is Some,
        ensures
            r == &self.driver_path->0,
    {
        match &self.driver_path {
            Some(path) => path,
            None => unreached(),
        }
    }

    pub fn args(&self) -> (r: &Option<Vec<String>>)
        ensures
            r == &self.args,
    {
        &self.args
    }

    pub fn sessions_per_driver(&self) -> (r: u32)
        ensures
            r == self.sessions_per_driver,
    {
        self.sessions_per_driver
    }

    pub fn max_sessions(&self) -> (r: u32)
        ensures
            r == self.max_sessions,
    {
        self.max_sessions
    }

    /// Does this browser match the capabilities we are searching for?
    pub fn matches_capabilities(&self, capabilities: &Capabilities) -> (r: bool)
        ensures
            r == spec_matches_capabilities(self, capabilities),
    {
        let own_name = lowercase(self.name.as_str());
        let req_name = lowercase(capabilities.browser_name().as_str());
        if !str_eq(own_name.as_str(), req_name.as_str()) {
            return false;
        }

        match capabilities.browser_version() {
            Some(required_version) => {
                if !required_version.as_str().is_empty() {
                    match &self.version {
                        Some(v) => {
                            if !str_eq(v.as_str(), required_version.as_str()) {
                                return false;
                            }
                        },
                        None => {
                            return false;
                        },
                    }
                }
            },
            None => {},
        }

        match capabilities.platform_name() {
            Some(required_os) => {
                let required_os = lowercase(required_os.as_str());
                if !str_eq(required_os.as_str(), "any") {
                    match &self.os {
                        Some(os) => {
                            let own_os = lowercase(os.as_str());
                            if !str_eq(own_os.as_str(), required_os.as_str()) {
                                return false;
                            }
                        },
                        None => {
                            return false;
                        },
                    }
                }
            },
            None => {},
        }

        true
    }

    /// Prepare the entry for use: default the driver path from the browser
    /// name when it was not configured, or reject a browser without a
    /// default driver.
    pub fn sanitize(&mut self) -> (r: Result<(), XenonError>)
        ensures
            match r {
                Ok(()) => {
                    &&& final(self).driver_path is Some
                    &&& old(self).driver_path is Some ==> final(self).driver_path == old(self).driver_path
                    &&& old(self).driver_path is None ==> Some(final(self).driver_path->0@) == spec_default_webdriver(old(self).name@)
                },
                Err(e) => {
                    &&& old(self).driver_path is None
                    &&& spec_default_webdriver(old(self).name@) is None
                    &&& e matches XenonError::ConfigUnexpectedBrowser(n, _) && n@ == old(self).name@
                    &&& *final(self) == *old(self)
                },
            },
            final(self).name == old(self).name,
            final(self).version == old(self).version,
            final(self).os == old(self).os,
            final(self).args == old(self).args,
            final(self).sessions_per_driver == old(self).sessions_per_driver,
            final(self).max_sessions == old(self).max_sessions,
    {
        if self.driver_path.is_none() {
            match default_webdriver(self.name.as_str()) {
                Some(default) => {
                    self.driver_path = Some(default.to_owned());
                    proof {
                        assert(final(self).driver_path->0@ == spec_default_webdriver(old(self).name@)->0);
                    }
                },
                None => {
                    return Err(XenonError::ConfigUnexpectedBrowser(
                        self.name.clone(),
                        "A default webdriver can't be found. You may need to use a custom path option via 'driver_path' setting".to_owned(),
                    ));
                },
            }
        }
        Ok(())
    }
}

} // verus!
