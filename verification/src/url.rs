//! The target of a request: scheme, credentials, host with port, resource.

use vstd::prelude::*;
use vstd::utf8::is_ascii_chars;
use crate::error::Error;
use crate::text::{
    chars_of, copy_chars, find, find_char, has_prefix, lemma_find_from, split_from, starts_with,
    string_of,
};

verus! {

/// The most characters that a label of a host may have to be converted to
/// ASCII.
pub const LABEL_MAX: usize = 63;

/// What a URL says, as mathematics.
pub struct UrlView {
    pub https: bool,
    pub credentials: Option<(Seq<char>, Seq<char>)>,
    pub host: Seq<char>,
    pub resource: Seq<char>,
}

/// The target of a request.
#[derive(Debug, Clone, PartialEq)]
pub struct Url {
    /// Whether the connection is to be secured.
    pub https: bool,
    /// User name and password.
    pub credentials: Option<(String, String)>,
    /// Host and port, with a colon between them.
    pub host: String,
    /// The resource on the host; it begins with a slash where the URL names
    /// one.
    pub resource: String,
}

impl View for Url {
    type V = UrlView;

    open spec fn view(&self) -> UrlView {
        UrlView {
            https: self.https,
            credentials: match self.credentials {
                Some(c) => Some((c.0@, c.1@)),
                None => None,
            },
            host: self.host@,
            resource: self.resource@,
        }
    }
}

/// A URL without its scheme.
pub open spec fn after_scheme(url: Seq<char>) -> Seq<char> {
    if starts_with(url, "https://"@) {
        url.skip(8)
    } else if starts_with(url, "http://"@) {
        url.skip(7)
    } else {
        url
    }
}

/// What a URL says. The scheme decides whether the connection is secured;
/// without a scheme it is not. What stands before an `@` is user name and
/// password, with a colon between them. The host ends at the first slash,
/// where the resource begins; without a slash the resource is `/`. A host
/// without a port gets the port of the scheme. `None` when there is an `@`
/// and no colon before it.
pub open spec fn url_of(url: Seq<char>) -> Option<UrlView> {
    let https = starts_with(url, "https://"@);
    let rest = after_scheme(url);
    let at = find(rest, '@');
    let before = rest.take(at);
    let colon = find(before, ':');
    let target = if at < rest.len() {
        rest.skip(at + 1)
    } else {
        rest
    };
    let slash = find(target, '/');
    let host = target.take(slash);
    let resource = if slash < target.len() {
        target.skip(slash)
    } else {
        "/"@
    };
    let port = if https {
        ":443"@
    } else {
        ":80"@
    };
    if at < rest.len() && colon >= before.len() {
        None
    } else {
        Some(
            UrlView {
                https,
                credentials: if at < rest.len() {
                    Some((before.take(colon), before.skip(colon + 1)))
                } else {
                    None
                },
                host: if find(host, ':') < host.len() {
                    host
                } else {
                    host + port
                },
                resource,
            },
        )
    }
}

/// Parses the URL of a request.
pub fn parse_url(url: &str) -> (r: Result<Url, Error>)
    ensures
        r is Ok <==> url_of(url@) is Some,
        r matches Ok(u) ==> url_of(url@) == Some(u@),
        r matches Err(e) ==> e is InvalidCredentialsInURL,
{
    let all = chars_of(url);
    let secure = chars_of("https://");
    let plain = chars_of("http://");
    proof {
        reveal_strlit("https://");
        reveal_strlit("http://");
    }
    let https = has_prefix(all.as_slice(), secure.as_slice());
    let start: usize = if https {
        8
    } else if has_prefix(all.as_slice(), plain.as_slice()) {
        7
    } else {
        0
    };
    let rest = vstd::slice::slice_subrange(all.as_slice(), start, all.len());
    assert(rest@ =~= after_scheme(url@));
    let at = find_char(rest, '@', 0);
    let mut credentials: Option<(String, String)> = None;
    let mut from: usize = 0;
    if at < rest.len() {
        let before = vstd::slice::slice_subrange(rest, 0, at);
        assert(before@ =~= rest@.take(at as int));
        let colon = find_char(before, ':', 0);
        if colon >= before.len() {
            return Err(Error::InvalidCredentialsInURL);
        }
        let user = vstd::slice::slice_subrange(before, 0, colon);
        let password = vstd::slice::slice_subrange(before, colon + 1, before.len());
        assert(user@ =~= before@.take(colon as int));
        assert(password@ =~= before@.skip(colon + 1));
        credentials = Some((string_of(user), string_of(password)));
        from = at + 1;
    }
    let target = vstd::slice::slice_subrange(rest, from, rest.len());
    assert(target@ =~= if at < rest@.len() {
        rest@.skip(at + 1)
    } else {
        rest@
    });
    let slash = find_char(target, '/', 0);
    let host = vstd::slice::slice_subrange(target, 0, slash);
    assert(host@ =~= target@.take(slash as int));
    let resource = if slash < target.len() {
        let tail = vstd::slice::slice_subrange(target, slash, target.len());
        assert(tail@ =~= target@.skip(slash as int));
        string_of(tail)
    } else {
        "/".to_owned()
    };
    let mut full: Vec<char> = copy_chars(host, 0, host.len());
    assert(full@ =~= host@);
    if find_char(host, ':', 0) >= host.len() {
        let port = if https {
            chars_of(":443")
        } else {
            chars_of(":80")
        };
        full.extend_from_slice(port.as_slice());
    }
    let parsed = Url { https, credentials, host: string_of(full.as_slice()), resource };
    proof {
        let want = url_of(url@)->0;
        assert(parsed@.https == want.https);
        assert(parsed@.resource == want.resource);
        assert(parsed@.host =~= want.host);
        assert(parsed@.credentials == want.credentials);
    }
    Ok(parsed)
}

/// The ASCII form of a label of a host, as the punycode provider computes it:
/// without the `xn--` in front. `None` when the provider fails.
pub uninterp spec fn punycode(label: Seq<char>) -> Option<Seq<char>>;

/// Converts a label to punycode.
///
/// Trusted: calls `punycode::encode`. The contract names the result and
/// claims nothing more of it than that equal arguments give equal results.
/// Labels of more than [`LABEL_MAX`] characters are left out: the provider
/// counts in 32 bits without checking every sum.
#[verifier::external_body]
pub(crate) fn punycode_encode(label: &str) -> (r: Option<String>)
    requires
        label@.len() <= LABEL_MAX,
    ensures
        r is Some <==> punycode(label@) is Some,
        r matches Some(s) ==> punycode(label@) == Some(s@),
{
    match punycode::encode(label) {
        Ok(s) => Some(s),
        Err(_) => None,
    }
}

/// The ASCII form of one label: the label itself where it is ASCII, and
/// `xn--` with its punycode behind it where it is not. `None` when a label
/// that is not ASCII is too long or cannot be converted.
pub open spec fn ascii_label(label: Seq<char>) -> Option<Seq<char>> {
    if is_ascii_chars(label) {
        Some(label)
    } else if label.len() > LABEL_MAX {
        None
    } else {
        match punycode(label) {
            Some(p) => Some("xn--"@ + p),
            None => None,
        }
    }
}

/// The ASCII forms of the labels `labels[..upto]`, with a dot between two.
/// `None` when one of them has none.
pub open spec fn ascii_labels(labels: Seq<Seq<char>>, upto: int) -> Option<Seq<char>>
    decreases upto,
{
    if upto <= 0 {
        Some(Seq::empty())
    } else {
        match (ascii_labels(labels, upto - 1), ascii_label(labels[upto - 1])) {
            (Some(front), Some(last)) => Some(
                if upto == 1 {
                    last
                } else {
                    front + "."@ + last
                },
            ),
            _ => None,
        }
    }
}

/// The ASCII form of a host: the host itself where it is ASCII, and
/// otherwise its labels, each in ASCII form, with the dots between them.
pub open spec fn ascii_host(host: Seq<char>) -> Option<Seq<char>> {
    if is_ascii_chars(host) {
        Some(host)
    } else {
        ascii_labels(split_from(host, '.', 0), split_from(host, '.', 0).len() as int)
    }
}

/// Whether every character is ASCII.
pub fn all_ascii(s: &[char], from: usize, to: usize) -> (r: bool)
    requires
        from <= to <= s.len(),
    ensures
        r == is_ascii_chars(s@.subrange(from as int, to as int)),
{
    let ghost piece = s@.subrange(from as int, to as int);
    let mut i: usize = from;
    while i < to
        invariant
            from <= i <= to <= s.len(),
            piece == s@.subrange(from as int, to as int),
            forall|j: int| 0 <= j < i - from ==> '\0' <= #[trigger] piece[j] <= '\u{7f}',
        decreases to - i,
    {
        let c = s[i];
        assert(piece[i - from] == c);
        if !('\0' <= c && c <= '\u{7f}') {
            return false;
        }
        i += 1;
    }
    true
}

/// This just ensures host is ASCII.
pub fn ensure_ascii(host: String) -> (r: Result<String, Error>)
    ensures
        r is Ok <==> ascii_host(host@) is Some,
        r matches Ok(h) ==> ascii_host(host@) == Some(h@),
        r matches Err(e) ==> e is DNSOverflow,
{
    let all = chars_of(host.as_str());
    let s = all.as_slice();
    assert(s@.subrange(0, s@.len() as int) =~= s@);
    if all_ascii(s, 0, s.len()) {
        return Ok(host);
    }
    let ghost labels = split_from(s@, '.', 0);
    let ghost mut seen: int = 0;
    let mut out: Vec<char> = Vec::new();
    let mut off: usize = 0;
    let dashes = chars_of("xn--");
    assert(labels.skip(0) =~= labels);
    loop
        invariant
            s@ == host@,
            !is_ascii_chars(host@),
            labels == split_from(s@, '.', 0),
            dashes@ == "xn--"@,
            0 <= off <= s.len(),
            0 <= seen < labels.len(),
            (off == 0) == (seen == 0),
            labels.skip(seen) == split_from(s@, '.', off as int),
            ascii_labels(labels, seen) == Some(out@),
        decreases s.len() - off,
    {
        let end = find_char(s, '.', off);
        let ghost label = s@.subrange(off as int, end as int);
        proof {
            lemma_find_from(s@, '.', off as int);
            assert(labels[seen] == labels.skip(seen)[0]);
            assert(labels[seen] == label);
        }
        if off > 0 {
            out.push('.');
        }
        let ghost front = out@;
        if all_ascii(s, off, end) {
            let piece = vstd::slice::slice_subrange(s, off, end);
            out.extend_from_slice(piece);
        } else {
            if end - off > LABEL_MAX {
                proof {
                    lemma_ascii_labels_fail(labels, seen + 1, labels.len() as int);
                }
                return Err(Error::DNSOverflow);
            }
            let piece = vstd::slice::slice_subrange(s, off, end);
            let text = string_of(piece);
            match punycode_encode(text.as_str()) {
                Some(p) => {
                    out.extend_from_slice(dashes.as_slice());
                    let chars = chars_of(p.as_str());
                    out.extend_from_slice(chars.as_slice());
                },
                None => {
                    proof {
                        lemma_ascii_labels_fail(labels, seen + 1, labels.len() as int);
                    }
                    return Err(Error::DNSOverflow);
                },
            }
        }
        proof {
            let last = ascii_label(label)->0;
            if seen == 0 {
                assert(out@ =~= last);
            } else {
                assert(out@ =~= ascii_labels(labels, seen)->0 + "."@ + last) by {
                    reveal_strlit(".");
                    assert("."@ =~= seq!['.']);
                }
            }
            assert(ascii_labels(labels, seen + 1) == Some(out@));
        }
        if end >= s.len() {
            proof {
                assert(labels.skip(seen).len() == 1);
            }
            return Ok(string_of(out.as_slice()));
        }
        proof {
            assert(labels.skip(seen + 1) =~= labels.skip(seen).skip(1));
            assert(split_from(s@, '.', end + 1).len() >= 1);
            seen = seen + 1;
        }
        off = end + 1;
    }
}

/// Once a label has no ASCII form, no longer run of labels has one.
pub proof fn lemma_ascii_labels_fail(labels: Seq<Seq<char>>, at: int, upto: int)
    requires
        0 < at <= upto,
        ascii_labels(labels, at) is None,
    ensures
        ascii_labels(labels, upto) is None,
    decreases upto - at,
{
    if at < upto {
        lemma_ascii_labels_fail(labels, at, upto - 1);
    }
}

} // verus!
