//! How the child program is launched: the environment that routes it through the
//! proxy.

use crate::text;
use vstd::prelude::*;

verus! {

/// Whether the child shares the terminal or its output is captured.
#[derive(Debug, Clone, Copy, PartialEq, Eq, Structural)]
pub enum ChildStdio {
    Inherit,
    Piped,
}

/// How the child ended.
#[derive(Debug, Clone, PartialEq, Eq, Structural)]
pub struct ChildExit {
    pub pid: Option<u32>,
    pub code: Option<i32>,
    pub success: bool,
}

/// The environment variables that send a child's traffic through the proxy at
/// `proxy_addr`, and that make common TLS stacks trust the CA certificate file unless
/// that is turned off.
pub open spec fn proxy_environment(proxy_addr: Seq<char>, ca_cert_path: Option<Seq<char>>, no_extra_ca_env: bool) -> Seq<(Seq<char>, Seq<char>)> {
    let proxy = "http://"@ + proxy_addr;
    let base = seq![
        ("HTTP_PROXY"@, proxy),
        ("HTTPS_PROXY"@, proxy),
        ("ALL_PROXY"@, proxy),
        ("http_proxy"@, proxy),
        ("https_proxy"@, proxy),
        ("all_proxy"@, proxy),
    ];
    match ca_cert_path {
        Some(p) => if !no_extra_ca_env {
            base + seq![
                ("SSL_CERT_FILE"@, p),
                ("REQUESTS_CA_BUNDLE"@, p),
                ("CURL_CA_BUNDLE"@, p),
                ("NODE_EXTRA_CA_CERTS"@, p),
            ]
        } else {
            base
        },
        None => base,
    }
}

fn pair(name: &str, value: &String) -> (r: (String, String))
    ensures
        r.0@ == name@,
        r.1@ == value@,
{
    (text::to_owned(name), value.clone())
}

/// The environment that routes a child through the proxy; `proxy_addr` is the
/// listening address as `host:port`.
pub fn build_proxy_environment(proxy_addr: &str, ca_cert_path: Option<&str>, no_extra_ca_env: bool) -> (r: Vec<(String, String)>)
    ensures
        crate::capture::model::headers_view(r@) == proxy_environment(
            proxy_addr@,
            match ca_cert_path {
                Some(p) => Some(p@),
                None => None,
            },
            no_extra_ca_env,
        ),
{
    let mut proxy = text::to_owned("http://");
    text::push_str(&mut proxy, proxy_addr);
    let mut env: Vec<(String, String)> = Vec::new();
    env.push(pair("HTTP_PROXY", &proxy));
    env.push(pair("HTTPS_PROXY", &proxy));
    env.push(pair("ALL_PROXY", &proxy));
    env.push(pair("http_proxy", &proxy));
    env.push(pair("https_proxy", &proxy));
    env.push(pair("all_proxy", &proxy));
    if !no_extra_ca_env {
        match ca_cert_path {
            Some(p) => {
                let path = text::to_owned(p);
                env.push(pair("SSL_CERT_FILE", &path));
                env.push(pair("REQUESTS_CA_BUNDLE", &path));
                env.push(pair("CURL_CA_BUNDLE", &path));
                env.push(pair("NODE_EXTRA_CA_CERTS", &path));
            },
            None => {},
        }
    }
    proof {
        assert(crate::capture::model::headers_view(env@) =~= proxy_environment(
            proxy_addr@,
            match ca_cert_path {
                Some(p) => Some(p@),
                None => None,
            },
            no_extra_ca_env,
        ));
    }
    env
}

} // verus!
