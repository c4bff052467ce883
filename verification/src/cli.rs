//! The rules of the command-line client that comes with the proxy: what it
//! accepts as a URL and as a `key=value` pair of a request body, and how it
//! shows the body of an answer.

use vstd::prelude::*;
use vstd::string::StrSliceExecFns;

verus! {

/// A `key=value` pair of the command line.
#[derive(Clone, Debug, PartialEq, Eq)]
pub struct KvPair {
    pub k: String,
    pub v: String,
}

/// Why an argument is refused.
#[derive(Clone, Copy, Debug, PartialEq, Eq, Structural)]
pub enum ArgError {
    /// A pair without `=`: it has a key and no value.
    NoValue,
    /// A URL that does not parse.
    BadUrl,
}

/// The place of the first `=` in `s`, or the length of `s` where there is
/// none.
pub open spec fn first_eq(s: Seq<char>) -> int
    decreases s.len(),
{
    if s.len() == 0 {
        0
    } else if s[0] == '=' {
        0
    } else {
        1 + first_eq(s.skip(1))
    }
}

/// Key and value of a pair: the text in front of the first `=`, and the text
/// behind it up to the next `=` or the end; none where there is no `=`.
pub open spec fn split_pair(s: Seq<char>) -> Option<(Seq<char>, Seq<char>)> {
    let i = first_eq(s);
    if i >= s.len() {
        None
    } else {
        let rest = s.skip(i + 1);
        Some((s.take(i), rest.take(first_eq(rest))))
    }
}

/// The first `=` stands where no `=` stands in front and one stands, or the
/// text ends.
pub proof fn lemma_first_eq(s: Seq<char>, j: int)
    requires
        0 <= j <= s.len(),
        forall|k: int| 0 <= k < j ==> s[k] != '=',
        j == s.len() || s[j] == '=',
    ensures
        first_eq(s) == j,
    decreases s.len(),
{
    if j > 0 {
        assert(s[0] != '=');
        assert forall|k: int| 0 <= k < j - 1 implies s.skip(1)[k] != '=' by {
            assert(s.skip(1)[k] == s[k + 1]);
        }
        if j < s.len() {
            assert(s.skip(1)[j - 1] == s[j]);
        }
        lemma_first_eq(s.skip(1), j - 1);
    }
}

/// The place of the first `=` at or behind `from`, or `len` where there is
/// none.
fn find_eq(s: &str, from: usize, len: usize) -> (j: usize)
    requires
        from <= len,
        len == s@.len(),
    ensures
        from <= j <= len,
        j - from == first_eq(s@.skip(from as int)),
{
    let mut j: usize = from;
    while j < len && s.get_char(j) != '='
        invariant
            from <= j <= len,
            len == s@.len(),
            forall|k: int| from <= k < j ==> s@[k] != '=',
        decreases len - j,
    {
        j = j + 1;
    }
    proof {
        let tail = s@.skip(from as int);
        assert forall|k: int| 0 <= k < j - from implies tail[k] != '=' by {
            assert(tail[k] == s@[from + k]);
        }
        if j < len {
            assert(tail[j - from] == s@[j as int]);
        }
        lemma_first_eq(tail, j - from);
    }
    j
}

/// Reads a `key=value` pair: the key is what stands in front of the first
/// `=`, the value what stands behind it, up to a second `=` if there is one.
/// A text without `=` is refused.
pub fn parse_kv_pair(s: &str) -> (r: Result<KvPair, ArgError>)
    ensures
        match split_pair(s@) {
            Some((k, v)) => r matches Ok(pair) && pair.k@ == k && pair.v@ == v,
            None => r == Err::<KvPair, ArgError>(ArgError::NoValue),
        },
{
    let len = s.unicode_len();
    proof {
        assert(s@.skip(0) =~= s@);
    }
    let i = find_eq(s, 0, len);
    if i >= len {
        return Err(ArgError::NoValue);
    }
    let j = find_eq(s, i + 1, len);
    let k = s.substring_char(0, i).to_owned();
    let v = s.substring_char(i + 1, j).to_owned();
    proof {
        assert(s@.subrange(0, i as int) =~= s@.take(i as int));
        assert(s@.subrange(i + 1, j as int) =~= s@.skip(i + 1).take(j - (i + 1)));
    }
    Ok(KvPair { k, v })
}

/// Whether `Url::parse` of the `url` crate, as `reqwest` hands it on,
/// accepts `s`.
pub uninterp spec fn url_parses(s: Seq<char>) -> bool;

/// `str::parse` into a `reqwest::Url`, which is `Url::parse`: whether the
/// text is a URL.
#[verifier::external_body]
fn is_url(s: &str) -> (ok: bool)
    ensures
        ok == url_parses(s@),
{
    s.parse::<reqwest::Url>().is_ok()
}

/// Accepts what parses as a URL, and hands it back as it came.
pub fn parse_url(s: &str) -> (r: Result<String, ArgError>)
    ensures
        match r {
            Ok(url) => url_parses(s@) && url@ == s@,
            Err(e) => !url_parses(s@) && e == ArgError::BadUrl,
        },
{
    if is_url(s) {
        Ok(s.to_owned())
    } else {
        Err(ArgError::BadUrl)
    }
}

/// What `jsonxf::pretty_print` makes of `body`: the text laid out with two
/// spaces of indent, or the message of its failure.
pub uninterp spec fn pretty_json(body: Seq<char>) -> Result<Seq<char>, Seq<char>>;

/// `jsonxf::pretty_print`.
#[verifier::external_body]
fn json_pretty(body: &str) -> (r: Result<String, String>)
    ensures
        match r {
            Ok(text) => pretty_json(body@) == Ok::<Seq<char>, Seq<char>>(text@),
            Err(message) => pretty_json(body@) == Err::<Seq<char>, Seq<char>>(message@),
        },
{
    jsonxf::pretty_print(body)
}

/// The text that a body is shown as: laid out where the answer says that it
/// is JSON, and as it came where it does not. A JSON body that cannot be
/// laid out gives the message of the failure.
pub fn body_text(is_json: bool, body: &str) -> (r: Result<String, String>)
    ensures
        match r {
            Ok(text) => if is_json {
                pretty_json(body@) == Ok::<Seq<char>, Seq<char>>(text@)
            } else {
                text@ == body@
            },
            Err(message) => is_json && pretty_json(body@) == Err::<Seq<char>, Seq<char>>(
                message@,
            ),
        },
{
    if is_json {
        json_pretty(body)
    } else {
        Ok(body.to_owned())
    }
}

} // verus!
