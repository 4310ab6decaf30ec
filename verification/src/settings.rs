//! Typed settings over the key-value relation: the proxy policy and the
//! generic (timeout) settings, parsed from their JSON-encoded values, and
//! the HTTP client plan the fetch path builds from them.

use vstd::prelude::*;
use vstd::string::StringExecFns;

use crate::error::Error;
use crate::seed::opt_view;
use crate::store::{setting_value, Store};
use crate::text::{chars_to_string, push_nat_digits, spec_nat_digits};

verus! {

/// The proxy policy for outgoing fetches.
pub struct ProxySettings {
    /// Policy kind: `none`, `http`, or anything else for the system default.
    pub t: String,
    /// Proxy host, for the `http` kind.
    pub host: String,
    /// Proxy port, for the `http` kind.
    pub port: u16,
}

/// Settings that apply to every fetch.
pub struct GenericSettings {
    /// Request timeout in seconds.
    pub timeout: u32,
}

/// What extracting the `type`, `host` and `port` fields from the JSON text
/// `s` yields: nothing when `s` is not a JSON object, else each field when
/// present with the expected type. A function of `s` alone.
pub uninterp spec fn proxy_fields_of(s: Seq<char>) -> Option<
    (Option<Seq<char>>, Option<Seq<char>>, Option<u64>),
>;

/// What extracting the `timeout` field from the JSON text `s` yields:
/// nothing when `s` is not a JSON object carrying an unsigned `timeout`.
/// A function of `s` alone.
pub uninterp spec fn timeout_field_of(s: Seq<char>) -> Option<u64>;

/// Relies on `serde_json::from_str::<Value>` and `Value::get`,
/// `Value::as_str`, `Value::as_u64`: reads the proxy JSON object's `type`,
/// `host` and `port` fields, each absent when missing or of another type;
/// the outer `None` when `s` is not valid JSON.
#[verifier::external_body]
fn parse_proxy_json(s: &str) -> (r: Option<(Option<String>, Option<String>, Option<u64>)>)
    ensures
        match r {
            Some(f) => proxy_fields_of(s@) == Some(
                (opt_view(f.0), opt_view(f.1), f.2),
            ),
            None => proxy_fields_of(s@) is None,
        },
{
    let v: serde_json::Value = serde_json::from_str(s).ok()?;
    let t = v.get("type").and_then(|x| x.as_str()).map(|x| x.to_string());
    let host = v.get("host").and_then(|x| x.as_str()).map(|x| x.to_string());
    let port = v.get("port").and_then(|x| x.as_u64());
    Some((t, host, port))
}

/// Relies on `serde_json::from_str::<Value>` and `Value::get`,
/// `Value::as_u64`: reads the generic JSON object's `timeout` field;
/// `None` when `s` is not valid JSON or the field is missing or not an
/// unsigned integer.
#[verifier::external_body]
fn parse_timeout_json(s: &str) -> (r: Option<u64>)
    ensures
        r == timeout_field_of(s@),
{
    let v: serde_json::Value = serde_json::from_str(s).ok()?;
    v.get("timeout").and_then(|x| x.as_u64())
}

impl Store {
    /// The stored value under `key`, when one is stored.
    fn setting_of(&self, key: &String) -> (r: Option<String>)
        ensures
            match r {
                Some(v) => setting_value(self.settings@, key@) == Some(v@),
                None => setting_value(self.settings@, key@) is None,
            },
    {
        let n = self.settings.len();
        let mut i: usize = 0;
        proof {
            assert(self.settings@.skip(0) =~= self.settings@);
        }
        while i < n
            invariant
                0 <= i <= n,
                n == self.settings@.len(),
                setting_value(self.settings@, key@) == setting_value(
                    self.settings@.skip(i as int),
                    key@,
                ),
            decreases n - i,
        {
            proof {
                assert(self.settings@.skip(i as int)[0] == self.settings@[i as int]);
                assert(self.settings@.skip(i as int).skip(1) =~= self.settings@.skip(i + 1));
            }
            if self.settings[i].key.eq(key) {
                return Some(self.settings[i].value.clone());
            }
            i += 1;
        }
        proof {
            assert(self.settings@.skip(n as int) =~= Seq::<crate::store::Setting>::empty());
        }
        None
    }

    /// The proxy policy: the stored `proxy` setting when one exists — its
    /// JSON must parse, carry a string `type`, and any `port` must fit 16
    /// bits, else the read fails — or the system-default policy with no
    /// host and port 0 when none is stored. A missing `host` or `port`
    /// falls back to the same defaults.
    pub fn get_proxy(&self) -> (r: Result<ProxySettings, Error>)
        ensures
            ({
                let v = setting_value(self.settings@, "proxy"@);
                match v {
                    None => r is Ok && r->Ok_0.t@ == "sys"@ && r->Ok_0.host@ == Seq::<
                        char,
                    >::empty() && r->Ok_0.port == 0,
                    Some(js) => match proxy_fields_of(js) {
                        None => r is Err,
                        Some(f) => match f.0 {
                            None => r is Err,
                            Some(t) => if f.2 matches Some(p) && p > 65535 {
                                r is Err
                            } else {
                                r is Ok && r->Ok_0.t@ == t && r->Ok_0.host@ == (match f.1 {
                                    Some(h) => h,
                                    None => Seq::<char>::empty(),
                                }) && r->Ok_0.port as int == (match f.2 {
                                    Some(p) => p as int,
                                    None => 0int,
                                })
                            },
                        },
                    },
                }
            }),
    {
        let key = String::from_str("proxy");
        match self.setting_of(&key) {
            None => Ok(
                ProxySettings { t: String::from_str("sys"), host: String::new(), port: 0 },
            ),
            Some(js) => {
                match parse_proxy_json(js.as_str()) {
                    None => Err(Error(String::from_str("malformed proxy setting"))),
                    Some((t_opt, host_opt, port_opt)) => {
                        match t_opt {
                            None => Err(Error(String::from_str("malformed proxy setting"))),
                            Some(t) => {
                                let port: u64 = match port_opt {
                                    Some(p) => p,
                                    None => 0,
                                };
                                if port > 65535 {
                                    Err(Error(String::from_str("malformed proxy setting")))
                                } else {
                                    let host = match host_opt {
                                        Some(h) => h,
                                        None => String::new(),
                                    };
                                    Ok(ProxySettings { t: t, host: host, port: port as u16 })
                                }
                            },
                        }
                    },
                }
            },
        }
    }

    /// The generic settings: the stored `generic` setting when one exists —
    /// its JSON must parse and carry an unsigned `timeout` fitting 32 bits,
    /// else the read fails — or the default timeout of 30 seconds.
    pub fn get_generic_settings(&self) -> (r: Result<GenericSettings, Error>)
        ensures
            ({
                let v = setting_value(self.settings@, "generic"@);
                match v {
                    None => r is Ok && r->Ok_0.timeout == 30,
                    Some(js) => match timeout_field_of(js) {
                        None => r is Err,
                        Some(t) => if t > u32::MAX {
                            r is Err
                        } else {
                            r is Ok && r->Ok_0.timeout == t
                        },
                    },
                }
            }),
    {
        let key = String::from_str("generic");
        match self.setting_of(&key) {
            None => Ok(GenericSettings { timeout: 30 }),
            Some(js) => {
                match parse_timeout_json(js.as_str()) {
                    None => Err(Error(String::from_str("malformed generic setting"))),
                    Some(t) => {
                        if t > 0xFFFF_FFFF {
                            Err(Error(String::from_str("malformed generic setting")))
                        } else {
                            Ok(GenericSettings { timeout: t as u32 })
                        }
                    },
                }
            },
        }
    }
}

/// How the fetch path routes its HTTP client.
pub enum ProxyPlan {
    /// No proxy at all.
    NoProxy,
    /// An explicit HTTP proxy at the carried URL.
    Http(String),
    /// The system's default proxy resolution.
    System,
}

/// Everything the host needs to build the HTTP client for a fetch.
pub struct ClientPlan {
    /// Proxy routing.
    pub proxy: ProxyPlan,
    /// Request timeout in seconds.
    pub timeout_secs: u32,
}

/// The proxy URL for an explicit HTTP proxy: `http://host:port`.
pub open spec fn spec_proxy_url(host: Seq<char>, port: u16) -> Seq<char> {
    "http://"@ + host + seq![':'] + spec_nat_digits(port as int)
}

/// The client plan a proxy policy and the generic settings call for:
/// `none` leaves the client proxyless, `http` routes it through
/// `http://host:port`, anything else defers to the system default; the
/// timeout is taken as given.
pub fn client_plan(proxy: &ProxySettings, generic: &GenericSettings) -> (r: ClientPlan)
    ensures
        r.timeout_secs == generic.timeout,
        proxy.t@ == "none"@ ==> r.proxy is NoProxy,
        proxy.t@ == "http"@ ==> r.proxy is Http && r.proxy->Http_0@ == spec_proxy_url(
            proxy.host@,
            proxy.port,
        ),
        proxy.t@ != "none"@ && proxy.t@ != "http"@ ==> r.proxy is System,
{
    proof {
        reveal_strlit("none");
        reveal_strlit("http");
    }
    let none_kind = String::from_str("none");
    let http_kind = String::from_str("http");
    let plan: ProxyPlan = if proxy.t.eq(&none_kind) {
        proof {
            reveal_strlit("none");
            reveal_strlit("http");
            assert("none"@[0] != "http"@[0]);
            assert(proxy.t@ != "http"@);
        }
        ProxyPlan::NoProxy
    } else if proxy.t.eq(&http_kind) {
        let mut url: Vec<char> = Vec::new();
        url.push('h');
        url.push('t');
        url.push('t');
        url.push('p');
        url.push(':');
        url.push('/');
        url.push('/');
        let hc = crate::text::str_chars(proxy.host.as_str());
        let mut i: usize = 0;
        let hn = hc.len();
        while i < hn
            invariant
                0 <= i <= hn,
                hn == hc@.len(),
                hc@ == proxy.host@,
                url@ == seq!['h', 't', 't', 'p', ':', '/', '/'] + proxy.host@.take(i as int),
            decreases hn - i,
        {
            url.push(hc[i]);
            proof {
                assert(url@ =~= seq!['h', 't', 't', 'p', ':', '/', '/'] + proxy.host@.take(
                    i + 1,
                ));
            }
            i += 1;
        }
        url.push(':');
        push_nat_digits(proxy.port as u64, &mut url);
        proof {
            reveal_strlit("http://");
            assert(proxy.host@.take(hn as int) =~= proxy.host@);
            assert("http://"@ =~= seq!['h', 't', 't', 'p', ':', '/', '/']);
            assert(url@ =~= spec_proxy_url(proxy.host@, proxy.port));
        }
        let url_string = chars_to_string(&url);
        proof {
            assert(url_string@ == spec_proxy_url(proxy.host@, proxy.port));
        }
        ProxyPlan::Http(url_string)
    } else {
        ProxyPlan::System
    };
    ClientPlan { proxy: plan, timeout_secs: generic.timeout }
}

} // verus!
