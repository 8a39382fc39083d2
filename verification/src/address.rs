//! Web addresses: the parts of a parsed URL that policy decisions read.

use crate::text::{
    chars_of, optional_text, same_text, trim_end, trimmed_end, trimming_is_exact,
};
use vstd::prelude::*;

verus! {

/// A parsed URL, split into its parts.
#[derive(Debug, Eq, PartialEq)]
pub struct Url {
    /// The normalized serialization.
    pub text: String,
    pub scheme: String,
    pub host: Option<String>,
    /// The explicit port, or the one the scheme implies.
    pub port: Option<u16>,
    pub path: String,
    pub query: Option<String>,
    pub fragment: Option<String>,
    pub username: String,
    pub password: Option<String>,
}

/// The mathematical content of a [`Url`].
#[verifier::ext_equal]
pub struct UrlParts {
    pub text: Seq<char>,
    pub scheme: Seq<char>,
    pub host: Option<Seq<char>>,
    pub port: Option<u16>,
    pub path: Seq<char>,
    pub query: Option<Seq<char>>,
    pub fragment: Option<Seq<char>>,
    pub username: Seq<char>,
    pub password: Option<Seq<char>>,
}

impl View for Url {
    type V = UrlParts;

    open spec fn view(&self) -> UrlParts {
        UrlParts {
            text: self.text@,
            scheme: self.scheme@,
            host: optional_text(self.host),
            port: self.port,
            path: self.path@,
            query: optional_text(self.query),
            fragment: optional_text(self.fragment),
            username: self.username@,
            password: optional_text(self.password),
        }
    }
}

impl Clone for Url {
    fn clone(&self) -> (copy: Url)
        ensures
            copy@ == self@,
    {
        Url {
            text: self.text.clone(),
            scheme: self.scheme.clone(),
            host: self.host.clone(),
            port: self.port,
            path: self.path.clone(),
            query: self.query.clone(),
            fragment: self.fragment.clone(),
            username: self.username.clone(),
            password: self.password.clone(),
        }
    }
}

/// The content of an optional URL.
pub open spec fn optional_parts(url: Option<Url>) -> Option<UrlParts> {
    match url {
        Some(url) => Some(url@),
        None => None,
    }
}

/// The same optional URL.
pub fn copy_optional_url(url: &Option<Url>) -> (copy: Option<Url>)
    ensures
        optional_parts(copy) == optional_parts(*url),
{
    match url {
        Some(url) => Some(url.clone()),
        None => None,
    }
}

/// What `url::Url::parse` makes of a text: the parts of the URL, or the text of its error.
pub uninterp spec fn parsed_url(text: Seq<char>) -> Result<UrlParts, Seq<char>>;

/// Calls `url::Url::parse`. The result is claimed to be the one named by [`parsed_url`]: it
/// depends on `text` alone. On success every part is what the accessor of the same name returns
/// (`text` is `as_str`, `host` is `host_str`, `port` is `port_or_known_default`); on failure the
/// message is the display text of the parse error.
#[verifier::external_body]
fn read_url(text: &str) -> (parsed: Result<Url, String>)
    ensures
        parse_outcome(parsed) == parsed_url(text@),
{
    match url::Url::parse(text) {
        Ok(url) => Ok(Url {
            text: url.as_str().to_owned(),
            scheme: url.scheme().to_owned(),
            host: url.host_str().map(str::to_owned),
            port: url.port_or_known_default(),
            path: url.path().to_owned(),
            query: url.query().map(str::to_owned),
            fragment: url.fragment().map(str::to_owned),
            username: url.username().to_owned(),
            password: url.password().map(str::to_owned),
        }),
        Err(error) => Err(error.to_string()),
    }
}

/// The content of what parsing a URL came to.
pub open spec fn parse_outcome(parsed: Result<Url, String>) -> Result<UrlParts, Seq<char>> {
    match parsed {
        Ok(url) => Ok(url@),
        Err(message) => Err(message@),
    }
}

/// Whether the scheme is `http` or `https`.
pub open spec fn web_scheme(url: UrlParts) -> bool {
    url.scheme == "http"@ || url.scheme == "https"@
}

/// Whether the URL is an absolute http(s) URL: web scheme and a host.
pub open spec fn absolute_web_url(url: UrlParts) -> bool {
    web_scheme(url) && url.host is Some
}

/// The lower-case form of an ASCII letter; any other character is itself.
pub open spec fn ascii_lower(c: char) -> char {
    if 'A' <= c && c <= 'Z' {
        (c as u8 + 32) as u8 as char
    } else {
        c
    }
}

/// A host as origins compare it: without trailing dots, ASCII letters in lower case.
pub open spec fn comparable_host(host: Seq<char>) -> Seq<char> {
    trimmed_end(host, '.', '.').map_values(|c: char| ascii_lower(c))
}

/// The comparable form of an optional host.
pub open spec fn comparable_optional_host(host: Option<Seq<char>>) -> Option<Seq<char>> {
    match host {
        Some(host) => Some(comparable_host(host)),
        None => None,
    }
}

/// Whether two URLs share scheme, host and effective port.
pub open spec fn share_origin(a: UrlParts, b: UrlParts) -> bool {
    &&& a.scheme == b.scheme
    &&& comparable_optional_host(a.host) == comparable_optional_host(b.host)
    &&& a.port == b.port
}

impl Url {
    /// Parses `text` as a URL.
    pub fn parse(text: &str) -> (parsed: Result<Url, String>)
        ensures
            parse_outcome(parsed) == parsed_url(text@),
    {
        read_url(text)
    }

    /// Whether the scheme is `http` or `https`.
    pub fn has_web_scheme(&self) -> (yes: bool)
        ensures
            yes == web_scheme(self@),
    {
        same_text(self.scheme.as_str(), "http") || same_text(self.scheme.as_str(), "https")
    }

    /// Whether this is an absolute http(s) URL.
    pub fn is_absolute_web_url(&self) -> (yes: bool)
        ensures
            yes == absolute_web_url(self@),
    {
        self.has_web_scheme() && self.host.is_some()
    }
}

fn lower(c: char) -> (l: char)
    ensures
        l == ascii_lower(c),
{
    if 'A' <= c && c <= 'Z' {
        (c as u8 + 32) as char
    } else {
        c
    }
}

fn same_host(a: &str, b: &str) -> (same: bool)
    ensures
        same == (comparable_host(a@) == comparable_host(b@)),
{
    let a_chars: Vec<char> = chars_of(trim_end(a, '.', '.'));
    let b_chars: Vec<char> = chars_of(trim_end(b, '.', '.'));
    let ghost left = comparable_host(a@);
    let ghost right = comparable_host(b@);
    if a_chars.len() != b_chars.len() {
        assert(left.len() != right.len());
        return false;
    }
    for i in 0..a_chars.len()
        invariant
            a_chars@ == trimmed_end(a@, '.', '.'),
            b_chars@ == trimmed_end(b@, '.', '.'),
            a_chars.len() == b_chars.len(),
            left == comparable_host(a@),
            right == comparable_host(b@),
            forall|j: int| 0 <= j < i ==> left[j] == right[j],
    {
        if lower(a_chars[i]) != lower(b_chars[i]) {
            assert(left[i as int] != right[i as int]);
            return false;
        }
    }
    assert(left =~= right);
    true
}

/// Whether `a` and `b` have the same origin: scheme, host (trailing dots and letter case aside)
/// and effective port.
pub fn same_origin(a: &Url, b: &Url) -> (same: bool)
    ensures
        same == share_origin(a@, b@),
{
    same_text(a.scheme.as_str(), b.scheme.as_str()) && (match (&a.host, &b.host) {
        (Some(a), Some(b)) => same_host(a.as_str(), b.as_str()),
        (None, None) => true,
        _ => false,
    }) && a.port == b.port
}

/// Sharing an origin is an equivalence: every URL shares its own origin, and two URLs that share
/// an origin with a third, in whichever order, share it with each other.
pub proof fn origins_partition_urls(a: UrlParts, b: UrlParts, c: UrlParts)
    ensures
        share_origin(a, a),
        share_origin(a, b) ==> share_origin(b, a),
        share_origin(a, b) && share_origin(b, c) ==> share_origin(a, c),
{
}

// ---------------------------------------------------------------------------------------------
// Laws
// ---------------------------------------------------------------------------------------------

/// Whether two characters are the same but for the case of an ASCII letter, by their codes.
pub open spec fn same_letter(c: char, d: char) -> bool {
    let a = c as int;
    let b = d as int;
    ||| a == b
    ||| 0x41 <= a <= 0x5a && b == a + 0x20
    ||| 0x41 <= b <= 0x5a && a == b + 0x20
}

/// Whether `n` is where the dots at the end of `host` begin.
pub open spec fn dots_begin(host: Seq<char>, n: int) -> bool {
    &&& 0 <= n <= host.len()
    &&& n > 0 ==> host[n - 1] as int != 0x2e
    &&& forall|i: int| n <= i < host.len() ==> #[trigger] host[i] as int == 0x2e
}

/// Whether two hosts are the same name: without the dots at their ends they are of one length, and
/// the same character by character but for the case of ASCII letters.
pub open spec fn same_name(h: Seq<char>, k: Seq<char>) -> bool {
    exists|n: int| #[trigger]
        dots_begin(h, n) && dots_begin(k, n) && forall|i: int|
            0 <= i < n ==> same_letter(#[trigger] h[i], k[i])
}

proof fn lemma_lower(c: char, d: char)
    ensures
        ascii_lower(c) == ascii_lower(d) <==> same_letter(c, d),
{
}

proof fn lemma_dots(host: Seq<char>)
    ensures
        dots_begin(host, trimmed_end(host, '.', '.').len() as int),
        trimmed_end(host, '.', '.') == host.take(trimmed_end(host, '.', '.').len() as int),
{
    trimming_is_exact(host, '.', '.');
    let kept = trimmed_end(host, '.', '.');
    assert(kept =~= host.take(kept.len() as int));
}

proof fn lemma_dots_begin_once(host: Seq<char>, m: int, n: int)
    requires
        dots_begin(host, m),
        dots_begin(host, n),
    ensures
        m == n,
{
    if m < n {
        assert(host[n - 1] as int == 0x2e);
    }
    if n < m {
        assert(host[m - 1] as int == 0x2e);
    }
}

/// Hosts compare alike exactly when they are the same name.
pub proof fn hosts_compare_by_name(h: Seq<char>, k: Seq<char>)
    ensures
        comparable_host(h) == comparable_host(k) <==> same_name(h, k),
{
    let m = trimmed_end(h, '.', '.').len() as int;
    let n = trimmed_end(k, '.', '.').len() as int;
    lemma_dots(h);
    lemma_dots(k);
    let a = comparable_host(h);
    let b = comparable_host(k);
    if a == b {
        assert(a.len() == m && b.len() == n);
        assert forall|i: int| 0 <= i < m implies same_letter(#[trigger] h[i], k[i]) by {
            assert(a[i] == ascii_lower(h[i]));
            assert(b[i] == ascii_lower(k[i]));
            lemma_lower(h[i], k[i]);
        }
        assert(dots_begin(h, m));
    }
    if same_name(h, k) {
        let l = choose|l: int| #[trigger]
            dots_begin(h, l) && dots_begin(k, l) && forall|i: int|
                0 <= i < l ==> same_letter(#[trigger] h[i], k[i]);
        lemma_dots_begin_once(h, l, m);
        lemma_dots_begin_once(k, l, n);
        assert forall|i: int| 0 <= i < m implies a[i] == b[i] by {
            assert(same_letter(h[i], k[i]));
            lemma_lower(h[i], k[i]);
        }
        assert(a =~= b);
    }
}

/// Two URLs share an origin exactly when their schemes are the same, their ports are the same, and
/// they have no host or hosts of the same name.
pub proof fn origins_are_scheme_host_and_port(a: UrlParts, b: UrlParts)
    ensures
        share_origin(a, b) <==> a.scheme == b.scheme && a.port == b.port && (match (a.host, b.host) {
            (Some(h), Some(k)) => same_name(h, k),
            (None, None) => true,
            _ => false,
        }),
{
    if let (Some(h), Some(k)) = (a.host, b.host) {
        hosts_compare_by_name(h, k);
    }
}

/// A URL is a web URL by its scheme, http or https, and absolute by its host.
pub proof fn web_urls_by_scheme_and_host(url: UrlParts)
    ensures
        web_scheme(url) <==> url.scheme == "http"@ || url.scheme == "https"@,
        absolute_web_url(url) <==> (url.scheme == "http"@ || url.scheme == "https"@) && url.host
            is Some,
{
}

/// The parts of a URL are the contents of its fields.
pub proof fn url_parts_are_fields(url: Url, host: String, query: String, fragment: String, password: String)
    ensures
        url@.text == url.text@,
        url@.scheme == url.scheme@,
        url@.port == url.port,
        url@.path == url.path@,
        url@.username == url.username@,
        url.host == Some(host) ==> url@.host == Some(host@),
        url.host is None ==> url@.host is None,
        url.query == Some(query) ==> url@.query == Some(query@),
        url.query is None ==> url@.query is None,
        url.fragment == Some(fragment) ==> url@.fragment == Some(fragment@),
        url.fragment is None ==> url@.fragment is None,
        url.password == Some(password) ==> url@.password == Some(password@),
        url.password is None ==> url@.password is None,
        optional_parts(Some(url)) == Some(url@),
        optional_parts(None) is None,
        parse_outcome(Ok(url)) == Ok::<UrlParts, Seq<char>>(url@),
        parse_outcome(Err(host)) == Err::<UrlParts, Seq<char>>(host@),
{
}

} // verus!
