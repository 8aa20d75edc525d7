//! The calls this library makes into std and into outside crates, each behind
//! a small function whose contract states what the callee's documentation or
//! source promises; and `chars_of`, the characters of a string, proved from
//! vstd's specification of `str::chars`.
use vstd::prelude::*;
use itertools::Itertools;
use vstd::std_specs::iter::IteratorSpec;

verus! {

/// Strict lexicographic order on character sequences, by code point. For
/// strings this is the order that `Ord for str` documents (byte order of the
/// UTF-8 encoding, which agrees with code-point order).
pub open spec fn chars_lt(a: Seq<char>, b: Seq<char>) -> bool {
    exists|i: int|
        0 <= i <= a.len() && i <= b.len() && a.subrange(0, i) == b.subrange(0, i) && (
        (i < a.len() && i < b.len() && (a[i] as u32) < (b[i] as u32)) || (i == a.len() && i
            < b.len()))
}

pub open spec fn chars_le(a: Seq<char>, b: Seq<char>) -> bool {
    a == b || chars_lt(a, b)
}

/// Order on pairs of strings: by the first, then by the second.
pub open spec fn pair_le(a: (String, String), b: (String, String)) -> bool {
    chars_lt(a.0@, b.0@) || (a.0@ == b.0@ && chars_le(a.1@, b.1@))
}

pub open spec fn hex_upper(d: nat) -> char {
    if d < 10 {
        crate::text::digit_char(d)
    } else if d == 10 {
        'A'
    } else if d == 11 {
        'B'
    } else if d == 12 {
        'C'
    } else if d == 13 {
        'D'
    } else if d == 14 {
        'E'
    } else {
        'F'
    }
}

/// `%` followed by the two upper-case hexadecimal digits of `b`.
pub open spec fn percent_triplet(b: u8) -> Seq<char> {
    seq!['%', hex_upper((b / 16) as nat), hex_upper((b % 16) as nat)]
}

/// What `str::to_lowercase` makes of a string.
pub uninterp spec fn lower_of(s: Seq<char>) -> Seq<char>;

/// What `Regex::replace_all` makes of `text` for the given pattern and
/// replacement (with `$name` group references expanded).
pub uninterp spec fn regex_replaced(pattern: Seq<char>, text: Seq<char>, rep: Seq<char>) -> Seq<
    char,
>;

/// The text of each match of the pattern in `text`, left to right, as
/// `Regex::find_iter` yields them.
pub uninterp spec fn regex_found(pattern: Seq<char>, text: Seq<char>) -> Seq<Seq<char>>;

/// Whether `regex::Regex::new` accepts the pattern.
pub uninterp spec fn regex_compiles(pattern: Seq<char>) -> bool;

/// The parts of a URL as `url::Url` parses them: scheme, host, port (explicit
/// or the scheme's known default) and path; `None` where parsing fails.
pub uninterp spec fn url_parts(url: Seq<char>) -> Option<
    (Seq<char>, Option<Seq<char>>, Option<u16>, Seq<char>),
>;

/// The characters of `s`, in order.
pub fn chars_of(s: &str) -> (r: Vec<char>)
    ensures
        r@ == s@,
{
    broadcast use vstd::string::axiom_spec_iter, vstd::string::next_postcondition;

    let mut it = s.chars();
    let mut r: Vec<char> = Vec::new();
    loop
        invariant
            r@ + it.remaining() == s@,
            it.decrease() is Some,
        decreases it.decrease()->0,
    {
        match it.next() {
            Some(c) => {
                r.push(c);
                proof {
                    assert(r@ + it.remaining() =~= s@);
                }
            },
            None => {
                proof {
                    assert(r@ =~= s@);
                }
                return r;
            },
        }
    }
}

/// Relies on `FromIterator<&char> for String`: the characters in order.
#[verifier::external_body]
pub(crate) fn string_of(v: &Vec<char>) -> (r: String)
    ensures
        r@ == v@,
{
    v.iter().collect()
}

/// Relies on `str::to_lowercase`: the result depends on the characters alone,
/// and the empty string stays empty.
#[verifier::external_body]
pub(crate) fn lowercase(s: &str) -> (r: String)
    ensures
        r@ == lower_of(s@),
        s@.len() == 0 ==> r@.len() == 0,
{
    s.to_lowercase()
}

/// Relies on `slice::sort` of `String`s: a permutation, in ascending order.
#[verifier::external_body]
pub(crate) fn sort_strings(v: &mut Vec<String>)
    ensures
        final(v)@.map_values(|s: String| s@).to_multiset() == old(v)@.map_values(|s: String| s@).to_multiset(),
        forall|i: int, j: int|
            0 <= i < j < final(v)@.len() ==> chars_le(#[trigger] final(v)@[i]@, #[trigger] final(v)@[j]@),
{
    v.sort()
}

/// Relies on `Itertools::sorted` on string pairs: a permutation of the pairs,
/// in ascending order (first by name, then by value).
#[verifier::external_body]
pub(crate) fn sorted_pairs(v: &Vec<(String, String)>) -> (r: Vec<(String, String)>)
    ensures
        r@.to_multiset() == v@.to_multiset(),
        forall|i: int, j: int| 0 <= i < j < r@.len() ==> pair_le(#[trigger] r@[i], #[trigger] r@[j]),
{
    v.iter().cloned().sorted().collect()
}

/// Relies on `percent_encoding::percent_encode_byte`: `%` and two upper-case
/// hexadecimal digits.
#[verifier::external_body]
pub(crate) fn encode_byte(b: u8) -> (r: String)
    ensures
        r@ == percent_triplet(b),
{
    percent_encoding::percent_encode_byte(b).to_string()
}

/// Relies on `regex::Regex::new` and `Regex::replace_all`: `None` where the
/// pattern does not compile.
#[verifier::external_body]
pub(crate) fn regex_replace(pattern: &str, text: &str, rep: &str) -> (r: Option<String>)
    ensures
        r is Some <==> regex_compiles(pattern@),
        r matches Some(x) ==> x@ == regex_replaced(pattern@, text@, rep@),
{
    regex::Regex::new(pattern).ok().map(|re| re.replace_all(text, rep).to_string())
}

/// Relies on `regex::Regex::new` and `Regex::find_iter`: the text of each
/// match, in order; `None` where the pattern does not compile.
#[verifier::external_body]
pub(crate) fn regex_find_all(pattern: &str, text: &str) -> (r: Option<Vec<String>>)
    ensures
        r is Some <==> regex_compiles(pattern@),
        r matches Some(v) ==> v@.map_values(|s: String| s@) == regex_found(pattern@, text@),
{
    regex::Regex::new(pattern).ok().map(|re| re.find_iter(text).map(|m| m.as_str().to_string()).collect())
}

/// Relies on `url::Url::parse` (re-exported by reqwest) and its accessors
/// `scheme`, `host`, `port_or_known_default` and `path`.
#[verifier::external_body]
pub(crate) fn parse_url(url: &str) -> (r: Option<(String, Option<String>, Option<u16>, String)>)
    ensures
        r is None ==> url_parts(url@) is None,
        r matches Some(p) ==> url_parts(url@) == Some(
            (p.0@, match p.1 {
                Some(h) => Some(h@),
                None => None,
            }, p.2, p.3@),
        ),
{
    reqwest::Url::parse(url).ok().map(
        |u|
            (u.scheme().to_string(), u.host().map(|h| h.to_string()), u.port_or_known_default(),
            u.path().to_string()),
    )
}

} // verus!
