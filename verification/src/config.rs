//! The settings that the resolver is started with.

use vstd::prelude::*;

verus! {

/// The settings of the resolver. They are read once and do not change.
#[derive(Debug, Clone)]
pub struct Config {
    /// Upstream DNS server to forward legitimate queries to.
    pub upstream_dns: String,
    /// List of URLs to fetch blocklists from.
    pub blocklist_urls: Vec<String>,
    /// List of whitelisted domains, which override the blocklists.
    pub whitelist: Vec<String>,
    /// Port for the web dashboard.
    pub web_port: u16,
    /// Address that the DNS server binds to.
    pub dns_bind: String,
}

impl Default for Config {
    /// The settings used where none are given: a public resolver upstream,
    /// one well-known blocklist, no whitelist, the dashboard on port 8080 and
    /// the DNS server on port 53 of every address.
    fn default() -> (config: Config)
        ensures
            config.upstream_dns@ == "8.8.8.8:53"@,
            config.blocklist_urls@.len() == 1,
            config.blocklist_urls@[0]@
                == "https://raw.githubusercontent.com/StevenBlack/hosts/master/hosts"@,
            config.whitelist@.len() == 0,
            config.web_port == 8080,
            config.dns_bind@ == "0.0.0.0:53"@,
    {
        let mut blocklist_urls: Vec<String> = Vec::new();
        blocklist_urls.push(
            "https://raw.githubusercontent.com/StevenBlack/hosts/master/hosts".to_owned(),
        );
        Config {
            upstream_dns: "8.8.8.8:53".to_owned(),
            blocklist_urls,
            whitelist: Vec::new(),
            web_port: 8080,
            dns_bind: "0.0.0.0:53".to_owned(),
        }
    }
}

} // verus!
