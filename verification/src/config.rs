//! The configuration model: upstream descriptions, method overrides, proxy
//! and probe settings, and the validation rules enforced whenever a
//! configuration is loaded or reloaded.
use vstd::prelude::*;
use vstd::string::StringExecFns;

use crate::strutil::eq_str;
use crate::strutil::spec_u64_string;
use crate::strutil::u64_to_string;

verus! {

/// One configured upstream.
#[derive(Debug)]
pub struct Backend {
    pub label: String,
    pub url: String,
    pub ws_url: Option<String>,
    pub weight: u32,
}

impl Clone for Backend {
    fn clone(&self) -> (res: Self)
        ensures
            res == *self,
    {
        Backend {
            label: self.label.clone(),
            url: self.url.clone(),
            ws_url: match &self.ws_url {
                Some(u) => Some(u.clone()),
                None => None,
            },
            weight: self.weight,
        }
    }
}

/// Settings for forwarding a request to an upstream.
#[derive(Debug)]
pub struct ProxyConfig {
    pub timeout_secs: u64,
}

impl Clone for ProxyConfig {
    fn clone(&self) -> (res: Self)
        ensures
            res == *self,
    {
        ProxyConfig { timeout_secs: self.timeout_secs }
    }
}

pub open spec fn spec_default_proxy_config() -> ProxyConfig {
    ProxyConfig { timeout_secs: 30 }
}

impl Default for ProxyConfig {
    fn default() -> (res: Self)
        ensures
            res == spec_default_proxy_config(),
    {
        ProxyConfig { timeout_secs: 30 }
    }
}

/// Settings for the background health monitor.
#[derive(Debug)]
pub struct HealthCheckConfig {
    pub interval_secs: u64,
    pub timeout_secs: u64,
    pub method: String,
    pub consecutive_failures_threshold: u32,
    pub consecutive_successes_threshold: u32,
}

impl Clone for HealthCheckConfig {
    fn clone(&self) -> (res: Self)
        ensures
            res == *self,
    {
        HealthCheckConfig {
            interval_secs: self.interval_secs,
            timeout_secs: self.timeout_secs,
            method: self.method.clone(),
            consecutive_failures_threshold: self.consecutive_failures_threshold,
            consecutive_successes_threshold: self.consecutive_successes_threshold,
        }
    }
}

impl Default for HealthCheckConfig {
    fn default() -> (res: Self)
        ensures
            res.interval_secs == 10,
            res.timeout_secs == 5,
            res.method@ == "getHealth"@,
            res.consecutive_failures_threshold == 3,
            res.consecutive_successes_threshold == 2,
    {
        HealthCheckConfig {
            interval_secs: 10,
            timeout_secs: 5,
            method: String::from_str("getHealth"),
            consecutive_failures_threshold: 3,
            consecutive_successes_threshold: 2,
        }
    }
}

/// One method-pinning rule: requests naming `method` go to the upstream
/// labelled `label`.
#[derive(Debug)]
pub struct MethodRoute {
    pub method: String,
    pub label: String,
}

impl Clone for MethodRoute {
    fn clone(&self) -> (res: Self)
        ensures
            res == *self,
    {
        MethodRoute { method: self.method.clone(), label: self.label.clone() }
    }
}

/// A full configuration document.
#[derive(Debug)]
pub struct Config {
    pub port: u16,
    pub metrics_port: u16,
    pub redis_url: String,
    pub backends: Vec<Backend>,
    pub method_routes: Vec<MethodRoute>,
    pub proxy: ProxyConfig,
    pub health_check: HealthCheckConfig,
}

impl Clone for Config {
    fn clone(&self) -> (res: Self)
        ensures
            res.port == self.port,
            res.metrics_port == self.metrics_port,
            res.redis_url == self.redis_url,
            res.backends@ == self.backends@,
            res.method_routes@ == self.method_routes@,
            res.proxy == self.proxy,
            res.health_check == self.health_check,
    {
        let mut backends: Vec<Backend> = Vec::new();
        let mut i: usize = 0;
        while i < self.backends.len()
            invariant
                0 <= i <= self.backends@.len(),
                backends@ =~= self.backends@.take(i as int),
            decreases self.backends@.len() - i,
        {
            backends.push(self.backends[i].clone());
            proof {
                assert(backends@ =~= self.backends@.take(i as int + 1));
            }
            i = i + 1;
        }
        let mut method_routes: Vec<MethodRoute> = Vec::new();
        let mut j: usize = 0;
        while j < self.method_routes.len()
            invariant
                0 <= j <= self.method_routes@.len(),
                method_routes@ =~= self.method_routes@.take(j as int),
            decreases self.method_routes@.len() - j,
        {
            method_routes.push(self.method_routes[j].clone());
            proof {
                assert(method_routes@ =~= self.method_routes@.take(j as int + 1));
            }
            j = j + 1;
        }
        proof {
            assert(backends@ =~= self.backends@);
            assert(method_routes@ =~= self.method_routes@);
        }
        Config {
            port: self.port,
            metrics_port: self.metrics_port,
            redis_url: self.redis_url.clone(),
            backends,
            method_routes,
            proxy: self.proxy.clone(),
            health_check: self.health_check.clone(),
        }
    }
}

/// Everything that can go wrong when a configuration is loaded.
#[derive(Debug)]
pub enum ConfigError {
    /// The document itself could not be read as TOML.
    Syntax { line_no: u64, detail: String },
    EmptyRedisUrl,
    NoBackends,
    EmptyLabel,
    ZeroWeight { label: String },
    DuplicateLabel { label: String },
    ZeroProxyTimeout,
    UnknownRouteLabel { method: String, label: String },
}

impl Clone for ConfigError {
    fn clone(&self) -> (res: Self)
        ensures
            res == *self,
    {
        match self {
            ConfigError::Syntax { line_no, detail } => ConfigError::Syntax {
                line_no: *line_no,
                detail: detail.clone(),
            },
            ConfigError::EmptyRedisUrl => ConfigError::EmptyRedisUrl,
            ConfigError::NoBackends => ConfigError::NoBackends,
            ConfigError::EmptyLabel => ConfigError::EmptyLabel,
            ConfigError::ZeroWeight { label } => ConfigError::ZeroWeight { label: label.clone() },
            ConfigError::DuplicateLabel { label } => ConfigError::DuplicateLabel {
                label: label.clone(),
            },
            ConfigError::ZeroProxyTimeout => ConfigError::ZeroProxyTimeout,
            ConfigError::UnknownRouteLabel { method, label } => ConfigError::UnknownRouteLabel {
                method: method.clone(),
                label: label.clone(),
            },
        }
    }
}

/// The human-readable description of each load error.
pub open spec fn spec_error_message(e: ConfigError) -> Seq<char> {
    match e {
        ConfigError::Syntax { line_no, detail } => "Invalid config at line "@ + spec_u64_string(
            line_no as int,
        ) + ": "@ + detail@,
        ConfigError::EmptyRedisUrl => "Redis URL must not be empty"@,
        ConfigError::NoBackends => "At least one backend must be configured"@,
        ConfigError::EmptyLabel => "Backend with empty label"@,
        ConfigError::ZeroWeight { label } => "Backend '"@ + label@ + "' has weight 0"@,
        ConfigError::DuplicateLabel { label } => "Duplicate backend labels: "@ + label@,
        ConfigError::ZeroProxyTimeout => "proxy timeout_secs must be greater than 0"@,
        ConfigError::UnknownRouteLabel { method, label } => "method_routes entry '"@ + method@
            + "' refers to unknown backend label '"@ + label@ + "'"@,
    }
}

impl ConfigError {
    /// Renders the error for logs and for clients of the loader.
    pub fn message(&self) -> (r: String)
        ensures
            r@ == spec_error_message(*self),
    {
        match self {
            ConfigError::Syntax { line_no, detail } => {
                let mut s = String::from_str("Invalid config at line ");
                let num = u64_to_string(*line_no);
                s.append(num.as_str());
                s.append(": ");
                s.append(detail.as_str());
                s
            },
            ConfigError::EmptyRedisUrl => String::from_str("Redis URL must not be empty"),
            ConfigError::NoBackends => String::from_str("At least one backend must be configured"),
            ConfigError::EmptyLabel => String::from_str("Backend with empty label"),
            ConfigError::ZeroWeight { label } => {
                let mut s = String::from_str("Backend '");
                s.append(label.as_str());
                s.append("' has weight 0");
                s
            },
            ConfigError::DuplicateLabel { label } => {
                let mut s = String::from_str("Duplicate backend labels: ");
                s.append(label.as_str());
                s
            },
            ConfigError::ZeroProxyTimeout => String::from_str(
                "proxy timeout_secs must be greater than 0",
            ),
            ConfigError::UnknownRouteLabel { method, label } => {
                let mut s = String::from_str("method_routes entry '");
                s.append(method.as_str());
                s.append("' refers to unknown backend label '");
                s.append(label.as_str());
                s.append("'");
                s
            },
        }
    }
}

/// Whether some backend in `bs` carries the label `l`.
pub open spec fn spec_has_label(bs: Seq<Backend>, l: Seq<char>) -> bool {
    exists|i: int| 0 <= i < bs.len() && #[trigger] bs[i].label@ == l
}

/// The validation rules of §load: non-empty store URL, at least one
/// upstream, no empty label, no zero weight, unique labels, a positive
/// forward timeout, and method overrides that name known labels.
pub open spec fn spec_valid_config(c: Config) -> bool {
    &&& c.redis_url@.len() > 0
    &&& c.backends@.len() > 0
    &&& forall|i: int| 0 <= i < c.backends@.len() ==> (#[trigger] c.backends@[i].label@).len() > 0
    &&& forall|i: int| 0 <= i < c.backends@.len() ==> (#[trigger] c.backends@[i]).weight > 0
    &&& forall|i: int, j: int|
        0 <= i < j < c.backends@.len() ==> c.backends@[i].label@ != c.backends@[j].label@
    &&& c.proxy.timeout_secs > 0
    &&& forall|i: int| 0 <= i < c.method_routes@.len()
        ==> spec_has_label(c.backends@, (#[trigger] c.method_routes@[i]).label@)
}

/// The first problem with backend `i`, checked in a fixed order: empty
/// label, zero weight, duplicate of an earlier label.
pub open spec fn spec_backend_issue(bs: Seq<Backend>, i: int) -> Option<ConfigError> {
    if bs[i].label@.len() == 0 {
        Some(ConfigError::EmptyLabel)
    } else if bs[i].weight == 0 {
        Some(ConfigError::ZeroWeight { label: bs[i].label })
    } else if exists|j: int| 0 <= j < i && #[trigger] bs[j].label@ == bs[i].label@ {
        Some(ConfigError::DuplicateLabel { label: bs[i].label })
    } else {
        None
    }
}

pub open spec fn spec_first_backend_issue(bs: Seq<Backend>, i: int) -> Option<ConfigError>
    decreases bs.len() - i,
{
    if i < 0 || i >= bs.len() {
        None
    } else if spec_backend_issue(bs, i) is Some {
        spec_backend_issue(bs, i)
    } else {
        spec_first_backend_issue(bs, i + 1)
    }
}

pub open spec fn spec_route_issue(routes: Seq<MethodRoute>, bs: Seq<Backend>, i: int) -> Option<
    ConfigError,
> {
    if !spec_has_label(bs, routes[i].label@) {
        Some(ConfigError::UnknownRouteLabel { method: routes[i].method, label: routes[i].label })
    } else {
        None
    }
}

pub open spec fn spec_first_route_issue(
    routes: Seq<MethodRoute>,
    bs: Seq<Backend>,
    i: int,
) -> Option<ConfigError>
    decreases routes.len() - i,
{
    if i < 0 || i >= routes.len() {
        None
    } else if spec_route_issue(routes, bs, i) is Some {
        spec_route_issue(routes, bs, i)
    } else {
        spec_first_route_issue(routes, bs, i + 1)
    }
}

/// What validation returns: the first rule violation in document order, or
/// nothing.
pub open spec fn spec_validate(c: Config) -> Result<(), ConfigError> {
    if c.redis_url@.len() == 0 {
        Err(ConfigError::EmptyRedisUrl)
    } else if c.backends@.len() == 0 {
        Err(ConfigError::NoBackends)
    } else if spec_first_backend_issue(c.backends@, 0) is Some {
        Err(spec_first_backend_issue(c.backends@, 0)->Some_0)
    } else if c.proxy.timeout_secs == 0 {
        Err(ConfigError::ZeroProxyTimeout)
    } else if spec_first_route_issue(c.method_routes@, c.backends@, 0) is Some {
        Err(spec_first_route_issue(c.method_routes@, c.backends@, 0)->Some_0)
    } else {
        Ok(())
    }
}

proof fn lemma_first_backend_issue_skip(bs: Seq<Backend>, i: int)
    requires
        0 <= i <= bs.len(),
        forall|j: int| 0 <= j < i ==> spec_backend_issue(bs, j) is None,
    ensures
        spec_first_backend_issue(bs, 0) == spec_first_backend_issue(bs, i),
    decreases i,
{
    if i > 0 {
        lemma_first_backend_issue_skip(bs, i - 1);
        assert(spec_backend_issue(bs, i - 1) is None);
        assert(spec_first_backend_issue(bs, i - 1) == spec_first_backend_issue(bs, i));
    }
}

proof fn lemma_first_route_issue_skip(routes: Seq<MethodRoute>, bs: Seq<Backend>, i: int)
    requires
        0 <= i <= routes.len(),
        forall|j: int| 0 <= j < i ==> spec_route_issue(routes, bs, j) is None,
    ensures
        spec_first_route_issue(routes, bs, 0) == spec_first_route_issue(routes, bs, i),
    decreases i,
{
    if i > 0 {
        lemma_first_route_issue_skip(routes, bs, i - 1);
    }
}

proof fn lemma_no_backend_issue_means_valid(bs: Seq<Backend>, i: int)
    requires
        0 <= i <= bs.len(),
        spec_first_backend_issue(bs, i) is None,
    ensures
        forall|j: int| i <= j < bs.len() ==> spec_backend_issue(bs, j) is None,
    decreases bs.len() - i,
{
    if i < bs.len() {
        lemma_no_backend_issue_means_valid(bs, i + 1);
    }
}

proof fn lemma_no_route_issue_means_valid(routes: Seq<MethodRoute>, bs: Seq<Backend>, i: int)
    requires
        0 <= i <= routes.len(),
        spec_first_route_issue(routes, bs, i) is None,
    ensures
        forall|j: int| i <= j < routes.len() ==> spec_route_issue(routes, bs, j) is None,
    decreases routes.len() - i,
{
    if i < routes.len() {
        lemma_no_route_issue_means_valid(routes, bs, i + 1);
    }
}

/// Validation succeeds exactly on the configurations the rules allow.
pub proof fn lemma_validate_ok_iff_valid(c: Config)
    ensures
        spec_validate(c) is Ok <==> spec_valid_config(c),
{
    if spec_validate(c) is Ok {
        lemma_no_backend_issue_means_valid(c.backends@, 0);
        lemma_no_route_issue_means_valid(c.method_routes@, c.backends@, 0);
        assert forall|i: int| 0 <= i < c.backends@.len()
            implies (#[trigger] c.backends@[i].label@).len() > 0 by {
            assert(spec_backend_issue(c.backends@, i) is None);
        }
        assert forall|i: int| 0 <= i < c.backends@.len()
            implies (#[trigger] c.backends@[i]).weight > 0 by {
            assert(spec_backend_issue(c.backends@, i) is None);
        }
        assert forall|i: int, j: int| 0 <= i < j < c.backends@.len()
            implies c.backends@[i].label@ != c.backends@[j].label@ by {
            assert(spec_backend_issue(c.backends@, j) is None);
            if c.backends@[i].label@ == c.backends@[j].label@ {
                assert(exists|k: int| 0 <= k < j && #[trigger] c.backends@[k].label@
                    == c.backends@[j].label@);
            }
        }
        assert forall|i: int| 0 <= i < c.method_routes@.len()
            implies spec_has_label(c.backends@, (#[trigger] c.method_routes@[i]).label@) by {
            assert(spec_route_issue(c.method_routes@, c.backends@, i) is None);
        }
    }
    if spec_valid_config(c) {
        assert forall|j: int| 0 <= j < c.backends@.len()
            implies spec_backend_issue(c.backends@, j) is None by {
            if exists|k: int| 0 <= k < j && #[trigger] c.backends@[k].label@
                == c.backends@[j].label@ {
                let k = choose|k: int| 0 <= k < j && #[trigger] c.backends@[k].label@
                    == c.backends@[j].label@;
                assert(false);
            }
        }
        lemma_first_backend_issue_skip(c.backends@, c.backends@.len() as int);
        assert forall|j: int| 0 <= j < c.method_routes@.len()
            implies spec_route_issue(c.method_routes@, c.backends@, j) is None by {
            assert(spec_has_label(c.backends@, c.method_routes@[j].label@));
        }
        lemma_first_route_issue_skip(c.method_routes@, c.backends@, c.method_routes@.len() as int);
    }
}

/// Checks whether some backend carries `label`.
pub fn has_backend_label(backends: &Vec<Backend>, label: &str) -> (r: bool)
    ensures
        r == spec_has_label(backends@, label@),
{
    let n = backends.len();
    let mut i: usize = 0;
    while i < n
        invariant
            0 <= i <= n,
            n == backends@.len(),
            forall|k: int| 0 <= k < i ==> #[trigger] backends@[k].label@ != label@,
        decreases n - i,
    {
        if eq_str(backends[i].label.as_str(), label) {
            assert(backends@[i as int].label@ == label@);
            return true;
        }
        i = i + 1;
    }
    assert(!spec_has_label(backends@, label@));
    false
}

/// Validates a configuration against the load rules, reporting the first
/// violation in document order.
pub fn validate_config(c: &Config) -> (r: Result<(), ConfigError>)
    ensures
        r == spec_validate(*c),
        r is Ok <==> spec_valid_config(*c),
{
    proof {
        lemma_validate_ok_iff_valid(*c);
    }
    if c.redis_url.as_str().unicode_len() == 0 {
        return Err(ConfigError::EmptyRedisUrl);
    }
    let n = c.backends.len();
    if n == 0 {
        return Err(ConfigError::NoBackends);
    }
    let mut i: usize = 0;
    while i < n
        invariant
            0 <= i <= n,
            n == c.backends@.len(),
            n > 0,
            c.redis_url@.len() > 0,
            forall|j: int| 0 <= j < i ==> spec_backend_issue(c.backends@, j) is None,
        decreases n - i,
    {
        let b = &c.backends[i];
        if b.label.as_str().unicode_len() == 0 {
            proof {
                lemma_first_backend_issue_skip(c.backends@, i as int);
            }
            return Err(ConfigError::EmptyLabel);
        }
        if b.weight == 0 {
            proof {
                lemma_first_backend_issue_skip(c.backends@, i as int);
            }
            return Err(ConfigError::ZeroWeight { label: b.label.clone() });
        }
        let mut j: usize = 0;
        let mut dup = false;
        while j < i && !dup
            invariant
                0 <= j <= i < n,
                n == c.backends@.len(),
                !dup ==> forall|k: int| 0 <= k < j
                    ==> #[trigger] c.backends@[k].label@ != c.backends@[i as int].label@,
                dup ==> exists|k: int| 0 <= k < i && #[trigger] c.backends@[k].label@
                    == c.backends@[i as int].label@,
            decreases i - j + (if dup { 0int } else { 1int }),
        {
            if eq_str(c.backends[j].label.as_str(), c.backends[i].label.as_str()) {
                assert(c.backends@[j as int].label@ == c.backends@[i as int].label@);
                dup = true;
            } else {
                j = j + 1;
            }
        }
        if dup {
            proof {
                lemma_first_backend_issue_skip(c.backends@, i as int);
            }
            return Err(ConfigError::DuplicateLabel { label: c.backends[i].label.clone() });
        }
        assert(spec_backend_issue(c.backends@, i as int) is None);
        i = i + 1;
    }
    proof {
        lemma_first_backend_issue_skip(c.backends@, n as int);
    }
    if c.proxy.timeout_secs == 0 {
        return Err(ConfigError::ZeroProxyTimeout);
    }
    let m = c.method_routes.len();
    let mut t: usize = 0;
    while t < m
        invariant
            0 <= t <= m,
            m == c.method_routes@.len(),
            spec_first_backend_issue(c.backends@, 0) is None,
            c.proxy.timeout_secs != 0,
            c.redis_url@.len() != 0,
            c.backends@.len() > 0,
            forall|j: int| 0 <= j < t
                ==> spec_route_issue(c.method_routes@, c.backends@, j) is None,
        decreases m - t,
    {
        let route = &c.method_routes[t];
        if !has_backend_label(&c.backends, route.label.as_str()) {
            proof {
                lemma_first_route_issue_skip(c.method_routes@, c.backends@, t as int);
            }
            return Err(ConfigError::UnknownRouteLabel {
                method: route.method.clone(),
                label: route.label.clone(),
            });
        }
        t = t + 1;
    }
    proof {
        lemma_first_route_issue_skip(c.method_routes@, c.backends@, m as int);
    }
    Ok(())
}

} // verus!
