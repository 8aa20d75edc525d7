//! A captured response and its analysis against the baseline: the body made
//! fit for line diffing, reflection counts, the reflection verdict and the
//! comparison of diff lines.
use vstd::prelude::*;
use crate::bridge::{
    chars_le, chars_of, lower_of, lowercase, regex_compiles, regex_find_all, regex_found, regex_replace, regex_replaced,
    sort_strings, sorted_pairs, string_of,
};
use crate::headers::{first_value, has_name, Headers};
use crate::pairs::{has_key, has_key_exec};
use crate::random::Randomizer;
use crate::request::{header_lines, header_text, prepared_as, sorted_copy, Request};
use crate::template::RequestDefaults;
use crate::text::{
    append_chars, contains, contains_exec, count_chars, count_clamped, decimal, decimal_spec,
    ends_with, join_spec, occurs_at, replace_chars, replace_spec, slice_chars, starts_with,
};

verus! {

/// Why a parameter was reported.
#[derive(Clone, Copy, Debug, PartialEq, Eq, Structural)]
pub enum ReasonKind {
    Code,
    Text,
    Reflected,
    NotReflected,
}

/// The class of a status code.
#[derive(Clone, Copy, Debug, PartialEq, Eq, Structural)]
pub enum Status {
    Success,
    Redirect,
    UserFault,
    ServerFault,
    Other,
}

/// A response to one request.
#[derive(Clone, Debug)]
pub struct Response {
    /// Milliseconds the exchange took.
    pub time: u128,
    pub code: u16,
    pub headers: Vec<(String, String)>,
    pub text: String,
    /// Names whose reflection count differs from the baseline, with that count.
    pub reflected_parameters: Vec<(String, i128)>,
    pub additional_parameter: String,
    pub request: Request,
}

pub open spec fn content_type_lower() -> Seq<char> {
    seq!['c', 'o', 'n', 't', 'e', 'n', 't', '-', 't', 'y', 'p', 'e']
}

pub open spec fn json_type(v: Option<Seq<char>>) -> bool {
    match v {
        Some(v) => contains(v, seq!['j', 's', 'o', 'n']),
        None => false,
    }
}

/// The body is treated as JSON: a JSON content type, or braces at both ends.
pub open spec fn looks_json(headers: Seq<(String, String)>, text: Seq<char>) -> bool {
    (has_name(headers, content_type_lower()) && json_type(first_value(
        headers,
        |n: Seq<char>| lower_of(n) == lower_of(content_type_lower()),
    ))) || (occurs_at(text, 0, seq!['{'])
        && text.len() >= 1 && occurs_at(text, text.len() - 1, seq!['}']))
}

pub open spec fn brackets_pattern() -> Seq<char> {
    seq!['(', '?', 'P', '<', 'b', 'r', 'a', 'c', 'k', 'e', 't', '>', '(', '\\', '{', '"', '|', '"', '\\', '}', '|', '\\', '[', '(', '"', '|', '\\', 'd', ')', '|', '(', '"', '|', '\\', 'd', ')', '\\', ']', ')', ')']
}

pub open spec fn brackets_replacement() -> Seq<char> {
    seq!['$', '{', 'b', 'r', 'a', 'c', 'k', 'e', 't', '}', '\n']
}

pub open spec fn digit_pattern() -> Seq<char> {
    seq!['(', '?', 'P', '<', 'f', 'i', 'r', 's', 't', '>', '"', '[', '\\', 'w', '\\', '.', '-', ']', '*', '"', ')', ':', '(', '?', 'P', '<', 's', 'e', 'c', 'o', 'n', 'd', '>', '\\', 'd', '+', ')', ',']
}

pub open spec fn bool_pattern() -> Seq<char> {
    seq!['(', '?', 'P', '<', 'f', 'i', 'r', 's', 't', '>', '"', '[', '\\', 'w', '\\', '.', '-', ']', '*', '"', ')', ':', '(', '?', 'P', '<', 's', 'e', 'c', 'o', 'n', 'd', '>', '(', 'f', 'a', 'l', 's', 'e', '|', 'n', 'u', 'l', 'l', '|', 't', 'r', 'u', 'e', ')', ')', ',']
}

pub open spec fn pair_replacement() -> Seq<char> {
    seq!['$', 'f', 'i', 'r', 's', 't', ':', '$', 's', 'e', 'c', 'o', 'n', 'd', ',', '\n']
}

/// One regex rewrite; a pattern that does not compile leaves the text as is.
pub open spec fn regex_step(pattern: Seq<char>, text: Seq<char>, rep: Seq<char>) -> Seq<char> {
    if regex_compiles(pattern) {
        regex_replaced(pattern, text, rep)
    } else {
        text
    }
}

/// A JSON body with line breaks after `",`, after bracket pairs and after
/// number, boolean and null members; escaped quotes become apostrophes.
pub open spec fn json_beautified(text: Seq<char>) -> Seq<char> {
    let t1 = replace_spec(text, seq!['\\', '"'], seq!['\'']);
    let t2 = replace_spec(t1, seq!['"', ','], seq!['"', ',', '\n']);
    let t3 = regex_step(brackets_pattern(), t2, brackets_replacement());
    let t4 = regex_step(digit_pattern(), t3, pair_replacement());
    regex_step(bool_pattern(), t4, pair_replacement())
}

/// The body made fit for line diffing.
pub open spec fn beautified(headers: Seq<(String, String)>, text: Seq<char>) -> Seq<char> {
    if looks_json(headers, text) {
        json_beautified(text)
    } else {
        replace_spec(text, seq!['>'], seq!['>', '\n'])
    }
}

/// Occurrences of `v` in the lower-cased text of the baseline, if any.
pub open spec fn baseline_count(d: RequestDefaults, v: Seq<char>) -> nat {
    match d.initial_response {
        Some(b) => count_clamped(lower_of(b.text@), v),
        None => 0,
    }
}

/// Occurrences of `v` in the lower-cased `text` less those in the baseline.
pub open spec fn delta(text: Seq<char>, d: RequestDefaults, v: Seq<char>) -> int {
    count_clamped(lower_of(text), v) - baseline_count(d, v)
}

/// The prepared parameters, pinned ones left out, whose delta differs from
/// the template's reflection count, each with its delta, in order.
pub open spec fn reflection_entries(
    pp: Seq<(String, String)>,
    nr: Seq<(String, String)>,
    text: Seq<char>,
    d: RequestDefaults,
) -> Seq<(Seq<char>, int)>
    decreases pp.len(),
{
    if pp.len() == 0 {
        Seq::empty()
    } else {
        let prev = reflection_entries(pp.drop_last(), nr, text, d);
        let p = pp.last();
        if !has_key(nr, p.0@) && delta(text, d, p.1@) != d.amount_of_reflections as int {
            prev.push((p.0@, delta(text, d, p.1@)))
        } else {
            prev
        }
    }
}

pub open spec fn refl_view(s: Seq<(String, i128)>) -> Seq<(Seq<char>, int)> {
    s.map_values(|p: (String, i128)| (p.0@, p.1 as int))
}

/// How many entries have delta `d`.
pub open spec fn count_delta(s: Seq<(String, i128)>, d: i128) -> nat
    decreases s.len(),
{
    if s.len() == 0 {
        0
    } else {
        count_delta(s.drop_last(), d) + if s.last().1 == d {
            1nat
        } else {
            0nat
        }
    }
}

/// The deltas take exactly two distinct values.
pub open spec fn two_deltas(s: Seq<(String, i128)>) -> bool {
    s.len() > 0 && exists|j: int|
        0 <= j < s.len() && #[trigger] s[j].1 != s[0].1 && forall|t: int|
            0 <= t < s.len() ==> (#[trigger] s[t].1 == s[0].1 || s[t].1 == s[j].1)
}

/// Entry `i` is alone with its delta.
pub open spec fn lone(s: Seq<(String, i128)>, i: int) -> bool {
    count_delta(s, s[i].1) == 1
}

/// The verdict on the reflected parameters: the name to report, if one can
/// be singled out, and whether the batch must be checked again.
pub open spec fn verdict(s: Seq<(String, i128)>, prepared_len: nat, additional: Seq<char>) -> (
    Option<Seq<char>>,
    bool,
) {
    if s.len() == 0 {
        (None, false)
    } else if s.len() == 1 {
        (Some(s[0].0@), false)
    } else if prepared_len == 2 && s.len() == 2 {
        if s[0].0@ != additional {
            (Some(s[0].0@), false)
        } else {
            (Some(s[1].0@), false)
        }
    } else if two_deltas(s) && exists|i: int| 0 <= i < s.len() && lone(s, i) {
        let i = choose|i: int| 0 <= i < s.len() && lone(s, i) && forall|t: int| 0 <= t < i ==> !lone(s, t);
        (Some(s[i].0@), true)
    } else {
        (None, true)
    }
}

/// ` (k)`, the tag that tells a repeated diff line apart.
pub open spec fn tagged(line: Seq<char>, k: nat) -> Seq<char> {
    line + seq![' ', '('] + decimal_spec(k) + seq![')']
}

/// The least `k` from 1 up to `seen.len() + 1` whose tag is not in `seen`
/// (one always is, as `seen` has fewer elements than the range).
pub open spec fn fresh_tag(seen: Seq<Seq<char>>, line: Seq<char>) -> nat {
    if exists|k: nat| 1 <= k <= seen.len() + 1 && !seen.contains(tagged(line, k)) {
        choose|k: nat|
            1 <= k <= seen.len() + 1 && !seen.contains(tagged(line, k)) && forall|j: nat|
                1 <= j < k ==> seen.contains(#[trigger] tagged(line, j))
    } else {
        (seen.len() + 1) as nat
    }
}

/// The diff lines not in `old`, in order; a line seen before in this
/// response gets the least fresh tag.
pub open spec fn tagged_lines(lines: Seq<Seq<char>>, old: Seq<Seq<char>>) -> Seq<Seq<char>>
    decreases lines.len(),
{
    if lines.len() == 0 {
        Seq::empty()
    } else {
        let prev = tagged_lines(lines.drop_last(), old);
        let d = lines.last();
        if old.contains(d) {
            prev
        } else if !prev.contains(d) {
            prev.push(d)
        } else {
            prev.push(tagged(d, fresh_tag(prev, d)))
        }
    }
}

pub open spec fn views(s: Seq<String>) -> Seq<Seq<char>> {
    s.map_values(|x: String| x@)
}

/// `r` holds the elements of `s`, in ascending order.
pub open spec fn sorted_lines(s: Seq<Seq<char>>, r: Seq<String>) -> bool {
    views(r).to_multiset() == s.to_multiset() && forall|i: int, j: int|
        0 <= i < j < r.len() ==> chars_le(#[trigger] r[i]@, #[trigger] r[j]@)
}

/// `HTTP/x <code>`, a line break, and the text.
pub open spec fn print_spec(code: u16, text: Seq<char>) -> Seq<char> {
    seq!['H', 'T', 'T', 'P', '/', 'x', ' '] + decimal_spec(code as nat) + seq!['\n'] + text
}

/// The class of a status code.
pub open spec fn kind_spec(code: u16) -> Status {
    if code <= 199 {
        Status::Other
    } else if code <= 299 {
        Status::Success
    } else if code <= 399 {
        Status::Redirect
    } else if code <= 499 {
        Status::UserFault
    } else if code <= 599 {
        Status::ServerFault
    } else {
        Status::Other
    }
}

fn text_of(v: Vec<char>) -> (r: String)
    ensures
        r@ == v@,
{
    string_of(&v)
}

fn regex_or_keep(pattern: Vec<char>, text: Vec<char>, rep: Vec<char>) -> (r: Vec<char>)
    ensures
        r@ == regex_step(pattern@, text@, rep@),
{
    let p = text_of(pattern);
    let t = text_of(text);
    let s = text_of(rep);
    match regex_replace(p.as_str(), t.as_str(), s.as_str()) {
        Some(x) => chars_of(x.as_str()),
        None => chars_of(t.as_str()),
    }
}

/// The body made fit for line diffing.
pub fn beautify(headers: &Vec<(String, String)>, text: &String) -> (r: String)
    ensures
        r@ == beautified(headers@, text@),
{
    let ct = text_of(vec!['c', 'o', 'n', 't', 'e', 'n', 't', '-', 't', 'y', 'p', 'e']);
    let t = chars_of(text.as_str());
    let mut json = false;
    if headers.contains_key(ct.as_str()) {
        match headers.get_value_case_insensitive(ct.as_str()) {
            Some(v) => {
                let j: Vec<char> = vec!['j', 's', 'o', 'n'];
                proof {
                    assert(j@ =~= seq!['j', 's', 'o', 'n']);
                }
                json = contains_exec(&chars_of(v.as_str()), &j);
            },
            None => {},
        }
    }
    let open: Vec<char> = vec!['{'];
    let close: Vec<char> = vec!['}'];
    if !json {
        json = starts_with(&t, &open) && ends_with(&t, &close);
    }
    proof {
        assert(open@ =~= seq!['{']);
        assert(close@ =~= seq!['}']);
    }
    if json {
        let esc: Vec<char> = vec!['\\', '"'];
        let apo: Vec<char> = vec!['\''];
        let qc: Vec<char> = vec!['"', ','];
        let qcn: Vec<char> = vec!['"', ',', '\n'];
        proof {
            assert(esc@ =~= seq!['\\', '"']);
            assert(apo@ =~= seq!['\'']);
            assert(qc@ =~= seq!['"', ',']);
            assert(qcn@ =~= seq!['"', ',', '\n']);
        }
        let t1 = replace_chars(&t, &esc, &apo);
        let t2 = replace_chars(&t1, &qc, &qcn);
        let t3 = regex_or_keep(vec!['(', '?', 'P', '<', 'b', 'r', 'a', 'c', 'k', 'e', 't', '>', '(', '\\', '{', '"', '|', '"', '\\', '}', '|', '\\', '[', '(', '"', '|', '\\', 'd', ')', '|', '(', '"', '|', '\\', 'd', ')', '\\', ']', ')', ')'], t2, vec!['$', '{', 'b', 'r', 'a', 'c', 'k', 'e', 't', '}', '\n']);
        let t4 = regex_or_keep(vec!['(', '?', 'P', '<', 'f', 'i', 'r', 's', 't', '>', '"', '[', '\\', 'w', '\\', '.', '-', ']', '*', '"', ')', ':', '(', '?', 'P', '<', 's', 'e', 'c', 'o', 'n', 'd', '>', '\\', 'd', '+', ')', ','], t3, vec!['$', 'f', 'i', 'r', 's', 't', ':', '$', 's', 'e', 'c', 'o', 'n', 'd', ',', '\n']);
        let t5 = regex_or_keep(vec!['(', '?', 'P', '<', 'f', 'i', 'r', 's', 't', '>', '"', '[', '\\', 'w', '\\', '.', '-', ']', '*', '"', ')', ':', '(', '?', 'P', '<', 's', 'e', 'c', 'o', 'n', 'd', '>', '(', 'f', 'a', 'l', 's', 'e', '|', 'n', 'u', 'l', 'l', '|', 't', 'r', 'u', 'e', ')', ')', ','], t4, vec!['$', 'f', 'i', 'r', 's', 't', ':', '$', 's', 'e', 'c', 'o', 'n', 'd', ',', '\n']);
        text_of(t5)
    } else {
        let gt: Vec<char> = vec!['>'];
        let gtn: Vec<char> = vec!['>', '\n'];
        proof {
            assert(gt@ =~= seq!['>']);
            assert(gtn@ =~= seq!['>', '\n']);
        }
        let r = replace_chars(&t, &gt, &gtn);
        text_of(r)
    }
}

/// Occurrences of `s` in the lower-cased `text`.
fn count_in(text: &String, s: &str) -> (r: usize)
    ensures
        r == count_clamped(lower_of(text@), s@),
{
    let lower = lowercase(text.as_str());
    count_chars(&chars_of(lower.as_str()), &chars_of(s))
}

/// How many entries of `s` have delta `d`.
fn count_delta_exec(s: &Vec<(String, i128)>, d: i128) -> (r: usize)
    ensures
        r == count_delta(s@, d),
{
    let mut n: usize = 0;
    let mut i: usize = 0;
    while i < s.len()
        invariant
            i <= s@.len(),
            n <= i,
            n == count_delta(s@.subrange(0, i as int), d),
        decreases s@.len() - i,
    {
        proof {
            assert(s@.subrange(0, i + 1).drop_last() =~= s@.subrange(0, i as int));
        }
        if s[i].1 == d {
            n = n + 1;
        }
        i = i + 1;
    }
    proof {
        assert(s@.subrange(0, s@.len() as int) =~= s@);
    }
    n
}

proof fn lemma_not_two(s: Seq<(String, i128)>, j: int, t: int)
    requires
        0 <= j < s.len(),
        0 <= t < s.len(),
        s[j].1 != s[0].1,
        s[t].1 != s[0].1,
        s[t].1 != s[j].1,
    ensures
        !two_deltas(s),
{
    assert forall|jj: int| 0 <= jj < s.len() && #[trigger] s[jj].1 != s[0].1 implies !(forall|u: int|
        0 <= u < s.len() ==> (#[trigger] s[u].1 == s[0].1 || s[u].1 == s[jj].1)) by {
        if s[jj].1 != s[j].1 {
            assert(!(s[j].1 == s[0].1 || s[j].1 == s[jj].1));
        } else {
            assert(!(s[t].1 == s[0].1 || s[t].1 == s[jj].1));
        }
    }
}

/// The verdict on a set of reflected parameters with their deltas, for a
/// request with `prepared_len` prepared parameters and the sentinel name
/// `additional`.
pub fn analyze_reflections(s: &Vec<(String, i128)>, prepared_len: usize, additional: &String) -> (r: (
    Option<String>,
    bool,
))
    ensures
        (opt_owned(r.0), r.1) == verdict(s@, prepared_len as nat, additional@),
{
    if s.len() == 0 {
        return (None, false);
    }
    if s.len() == 1 {
        return (Some(s[0].0.clone()), false);
    }
    if prepared_len == 2 && s.len() == 2 {
        if !s[0].0.eq(additional) {
            return (Some(s[0].0.clone()), false);
        } else {
            return (Some(s[1].0.clone()), false);
        }
    }
    let d0 = s[0].1;
    let mut j: usize = 1;
    while j < s.len() && s[j].1 == d0
        invariant
            1 <= j <= s@.len(),
            d0 == s@[0].1,
            forall|t: int| 0 <= t < j ==> #[trigger] s@[t].1 == d0,
        decreases s@.len() - j,
    {
        j = j + 1;
    }
    if j == s.len() {
        proof {
            assert(!two_deltas(s@));
        }
        return (None, true);
    }
    let d1 = s[j].1;
    let mut t: usize = 0;
    while t < s.len()
        invariant
            t <= s@.len(),
            j < s@.len(),
            d0 == s@[0].1,
            d1 == s@[j as int].1,
            d1 != d0,
            forall|u: int| 0 <= u < t ==> (#[trigger] s@[u].1 == d0 || s@[u].1 == d1),
        decreases s@.len() - t,
    {
        if s[t].1 != d0 && s[t].1 != d1 {
            proof {
                lemma_not_two(s@, j as int, t as int);
            }
            return (None, true);
        }
        t = t + 1;
    }
    proof {
        assert(two_deltas(s@)) by {
            assert(s@[j as int].1 != s@[0].1);
        }
    }
    let mut i: usize = 0;
    while i < s.len()
        invariant
            i <= s@.len(),
            s@.len() >= 2,
            !(prepared_len == 2 && s@.len() == 2),
            two_deltas(s@),
            forall|u: int| 0 <= u < i ==> !lone(s@, u),
        decreases s@.len() - i,
    {
        if count_delta_exec(s, s[i].1) == 1 {
            proof {
                assert(lone(s@, i as int));
                assert(exists|x: int| 0 <= x < s@.len() && lone(s@, x));
                let k = choose|k: int| 0 <= k < s@.len() && lone(s@, k) && forall|u: int| 0 <= u < k ==> !lone(s@, u);
                assert(0 <= k < s@.len() && lone(s@, k) && forall|u: int| 0 <= u < k ==> !lone(s@, u)) by {
                    assert(0 <= i < s@.len() && lone(s@, i as int) && forall|u: int| 0 <= u < i ==> !lone(s@, u));
                }
                if k < i {
                    assert(!lone(s@, k));
                }
                if i < k {
                    assert(!lone(s@, i as int));
                }
            }
            return (Some(s[i].0.clone()), true);
        }
        i = i + 1;
    }
    (None, true)
}

proof fn lemma_tagged_len(lines: Seq<Seq<char>>, old: Seq<Seq<char>>)
    ensures
        tagged_lines(lines, old).len() <= lines.len(),
    decreases lines.len(),
{
    if lines.len() > 0 {
        lemma_tagged_len(lines.drop_last(), old);
    }
}

pub open spec fn opt_owned(o: Option<String>) -> Option<Seq<char>> {
    match o {
        Some(s) => Some(s@),
        None => None,
    }
}

/// The tag ` (k)` appended to a line.
fn tag_exec(line: &Vec<char>, k: usize) -> (r: Vec<char>)
    ensures
        r@ == tagged(line@, k as nat),
{
    let mut r = line.clone();
    proof {
        assert(r@ == line@);
    }
    r.push(' ');
    r.push('(');
    append_chars(&mut r, &decimal(k as u64));
    r.push(')');
    proof {
        assert(r@ =~= tagged(line@, k as nat));
    }
    r
}

/// Whether `seen` holds `line`.
fn holds(seen: &Vec<String>, line: &Vec<char>) -> (r: bool)
    ensures
        r == views(seen@).contains(line@),
{
    let l = text_of(line.clone());
    let mut i: usize = 0;
    while i < seen.len()
        invariant
            i <= seen@.len(),
            l@ == line@,
            forall|t: int| 0 <= t < i ==> #[trigger] seen@[t]@ != line@,
        decreases seen@.len() - i,
    {
        if seen[i].eq(&l) {
            proof {
                assert(views(seen@)[i as int] == line@);
            }
            return true;
        }
        i = i + 1;
    }
    proof {
        if views(seen@).contains(line@) {
            let t = choose|t: int| 0 <= t < views(seen@).len() && views(seen@)[t] == line@;
            assert(seen@[t]@ == line@);
        }
    }
    false
}

/// The diff lines not in `old`, repeated ones tagged, in order.
fn tag_lines(lines: &Vec<String>, old: &Vec<String>) -> (r: Vec<String>)
    ensures
        views(r@) == tagged_lines(views(lines@), views(old@)),
{
    let mut out: Vec<String> = Vec::new();
    let mut i: usize = 0;
    while i < lines.len()
        invariant
            i <= lines@.len(),
            views(out@) == tagged_lines(views(lines@.subrange(0, i as int)), views(old@)),
            out@.len() <= i,
        decreases lines@.len() - i,
    {
        let ghost prev = views(out@);
        proof {
            assert(views(lines@.subrange(0, i + 1)).drop_last() =~= views(lines@.subrange(0, i as int)));
            assert(views(lines@.subrange(0, i + 1)).last() == lines@[i as int]@);
        }
        let d = chars_of(lines[i].as_str());
        if holds(old, &d) {
        } else if !holds(&out, &d) {
            out.push(text_of(d));
            proof {
                assert(views(out@) =~= prev.push(lines@[i as int]@));
            }
        } else {
            proof {
                lemma_tagged_len(views(lines@.subrange(0, i as int)), views(old@));
            }
            let bound = out.len() + 1;
            let mut c: usize = 0;
            let mut found = false;
            let mut kk: usize = bound;
            while c < bound && !found
                invariant
                    c <= bound,
                    bound == prev.len() + 1,
                    views(out@) == prev,
                    found ==> 1 <= kk <= prev.len() + 1 && !prev.contains(tagged(d@, kk as nat)) && forall|j: nat|
                        1 <= j < kk ==> prev.contains(#[trigger] tagged(d@, j)),
                    !found ==> kk == bound && forall|j: nat| 1 <= j <= c ==> prev.contains(#[trigger] tagged(d@, j)),
                decreases bound - c,
            {
                let t = tag_exec(&d, c + 1);
                if !holds(&out, &t) {
                    found = true;
                    kk = c + 1;
                } else {
                    proof {
                        assert forall|j: nat| 1 <= j <= c + 1 implies prev.contains(#[trigger] tagged(d@, j)) by {
                            if j == c + 1 {
                                assert(tagged(d@, j) == t@);
                            }
                        }
                    }
                }
                c = c + 1;
            }
            proof {
                let f = fresh_tag(prev, d@);
                if found {
                    let w = choose|w: nat|
                        1 <= w <= prev.len() + 1 && !prev.contains(tagged(d@, w)) && forall|j: nat|
                            1 <= j < w ==> prev.contains(#[trigger] tagged(d@, j));
                    assert(1 <= kk <= prev.len() + 1 && !prev.contains(tagged(d@, kk as nat)) && forall|j: nat|
                            1 <= j < kk ==> prev.contains(#[trigger] tagged(d@, j)));
                    if w < kk {
                        assert(prev.contains(tagged(d@, w)));
                    }
                    if kk < w {
                        assert(prev.contains(tagged(d@, kk as nat)));
                    }
                    assert(f == kk);
                } else {
                    assert(!(exists|w: nat| 1 <= w <= prev.len() + 1 && !prev.contains(tagged(d@, w))));
                    assert(f == prev.len() + 1);
                }
            }
            let t = tag_exec(&d, kk);
            out.push(text_of(t));
            proof {
                assert(views(out@) =~= prev.push(tagged(d@, fresh_tag(prev, d@))));
            }
        }
        i = i + 1;
    }
    proof {
        assert(lines@.subrange(0, lines@.len() as int) =~= lines@);
    }
    out
}

proof fn lemma_push_contains(s: Seq<Seq<char>>, a: Seq<char>, x: Seq<char>)
    ensures
        s.push(a).contains(x) <==> (s.contains(x) || x == a),
{
    if s.contains(x) {
        let t = choose|t: int| 0 <= t < s.len() && s[t] == x;
        assert(s.push(a)[t] == x);
    }
    if x == a {
        assert(s.push(a)[s.len() as int] == x);
    }
    if s.push(a).contains(x) {
        let t = choose|t: int| 0 <= t < s.push(a).len() && s.push(a)[t] == x;
        if t < s.len() {
            assert(s[t] == x);
        }
    }
}

/// Each match of `pattern` in `text` with the matches of `strip` removed.
pub open spec fn stripped_matches(pattern: Seq<char>, strip: Seq<char>, text: Seq<char>) -> Seq<Seq<char>> {
    if regex_compiles(pattern) {
        regex_found(pattern, text).map_values(|m: Seq<char>| regex_step(strip, m, Seq::empty()))
    } else {
        Seq::empty()
    }
}

pub open spec fn special_chars_pattern() -> Seq<char> {
    seq!['[', '\\', 'W', ']']
}

/// Names a page suggests: form field names, declared variables, short quoted
/// words and object keys.
pub open spec fn page_candidates(text: Seq<char>) -> Seq<Seq<char>> {
    stripped_matches(seq!['(', '?', 'i', ')', 'n', 'a', 'm', 'e', '=', '(', '"', '|', '\'', ')', '?', '[', '\\', 'w', '-', ']', '+'], seq!['(', '?', 'i', ')', 'n', 'a', 'm', 'e', '=', '(', '"', '|', '\'', ')', '?'], text)
        + stripped_matches(seq!['(', '?', 'i', ')', '(', 'v', 'a', 'r', '|', 'l', 'e', 't', '|', 'c', 'o', 'n', 's', 't', ')', '\\', 's', '+', '?', '[', '\\', 'w', '-', ']', '+'], seq!['(', '?', 'i', ')', '(', 'v', 'a', 'r', '|', 'l', 'e', 't', '|', 'c', 'o', 'n', 's', 't', ')', '\\', 's', '+', '?'], text)
        + stripped_matches(seq!['(', '"', '|', '\'', ')', '[', 'a', '-', 'z', 'A', '-', 'Z', '0', '-', '9', ']', '{', '3', ',', '2', '0', '}', '(', '\'', '|', '"', ')'], special_chars_pattern(), text)
        + stripped_matches(seq!['[', '\\', '{', ',', ']', '\\', 's', '*', '[', '[', ':', 'a', 'l', 'p', 'h', 'a', ':', ']', ']', '\\', 'w', '{', '2', ',', '2', '5', '}', ':'], special_chars_pattern(), text)
}

/// Appends each match of `pattern` in `text`, with the matches of `strip`
/// removed, to `found`.
fn push_stripped(found: &mut Vec<String>, pattern: Vec<char>, strip: Vec<char>, text: &String)
    ensures
        views(final(found)@) == views(old(found)@) + stripped_matches(pattern@, strip@, text@),
{
    let p = text_of(pattern);
    match regex_find_all(p.as_str(), text.as_str()) {
        Some(ms) => {
            let ghost start = views(found@);
            let mut i: usize = 0;
            while i < ms.len()
                invariant
                    i <= ms@.len(),
                    regex_compiles(pattern@),
                    ms@.map_values(|s: String| s@) == regex_found(pattern@, text@),
                    views(found@) == start + stripped_matches(pattern@, strip@, text@).subrange(0, i as int),
                decreases ms@.len() - i,
            {
                let m = chars_of(ms[i].as_str());
                let nothing: Vec<char> = Vec::new();
                proof {
                    assert(ms@.map_values(|s: String| s@)[i as int] == ms@[i as int]@);
                    assert(nothing@ =~= Seq::<char>::empty());
                }
                let strip_copy = slice_chars(&strip, 0, strip.len());
                proof {
                    assert(strip_copy@ =~= strip@);
                    let sm = stripped_matches(pattern@, strip@, text@);
                    assert(sm[i as int] == regex_step(strip@, ms@[i as int]@, Seq::empty()));
                    assert(sm.subrange(0, i + 1) =~= sm.subrange(0, i as int).push(sm[i as int]));
                }
                let x = regex_or_keep(strip_copy, m, nothing);
                let ghost before = found@;
                let xs = text_of(x);
                found.push(xs);
                proof {
                    let sm = stripped_matches(pattern@, strip@, text@);
                    assert(xs@ == sm[i as int]);
                    assert(views(found@) =~= views(before).push(xs@));
                    assert(views(found@) =~= start + stripped_matches(pattern@, strip@, text@).subrange(0, i + 1));
                }
                i = i + 1;
            }
            proof {
                let sm = stripped_matches(pattern@, strip@, text@);
                assert(sm.subrange(0, sm.len() as int) =~= sm);
            }
        },
        None => {
            proof {
                assert(views(found@) =~= views(found@) + Seq::<Seq<char>>::empty());
            }
        },
    }
}

/// Occurrences of `v` in the lower-cased baseline text, if there is one.
fn baseline_count_exec(d: &RequestDefaults, v: &String) -> (r: usize)
    ensures
        r == baseline_count(*d, v@),
{
    match &d.initial_response {
        Some(b) => count_in(&b.text, v.as_str()),
        None => 0,
    }
}

impl Response {
    /// A response record for `request` from what the transport returned: the
    /// body made fit for diffing, the sorted headers put in front of it, and
    /// the reflection counts filled in.
    pub fn received(
        request: Request,
        defaults: &RequestDefaults,
        code: u16,
        headers: Vec<(String, String)>,
        body: String,
        time: u128,
        additional_parameter: String,
    ) -> (r: Response)
        ensures
            r.code == code,
            r.time == time,
            r.headers == headers,
            r.request == request,
            r.additional_parameter == additional_parameter,
            exists|sorted: Seq<(String, String)>|
                sorted_copy(headers@, sorted) && r.text@ == header_lines(sorted) + seq!['\n'] + beautified(
                    headers@,
                    body@,
                ),
            refl_view(r.reflected_parameters@) == reflection_entries(
                request.prepared_parameters@,
                request.non_random_parameters@,
                r.text@,
                *defaults,
            ),
    {
        let text = beautify(&headers, &body);
        let mut response = Response {
            time,
            code,
            headers,
            text,
            reflected_parameters: Vec::new(),
            additional_parameter,
            request,
        };
        response.add_headers();
        proof {
            assert(refl_view(response.reflected_parameters@) =~= Seq::empty());
        }
        response.fill_reflected_parameters(defaults);
        proof {
            assert(refl_view(response.reflected_parameters@) =~= Seq::empty() + reflection_entries(
                response.request.prepared_parameters@,
                response.request.non_random_parameters@,
                response.text@,
                *defaults,
            ));
        }
        response
    }

    /// How many times `string` occurs in the lower-cased text.
    pub fn count(&self, string: &str) -> (r: usize)
        ensures
            r == count_clamped(lower_of(self.text@), string@),
    {
        count_in(&self.text, string)
    }

    /// Whether the code differs from the baseline's, and the diff lines (as
    /// the line-diff of the two printed responses gives them) that are not in
    /// `old_diffs`, repeated ones tagged, in ascending order.
    pub fn compare(&self, defaults: &RequestDefaults, diff_lines: &Vec<String>, old_diffs: &Vec<String>) -> (r: (
        bool,
        Vec<String>,
    ))
        requires
            defaults.initial_response is Some,
        ensures
            r.0 == (defaults.initial_response->0.code != self.code),
            sorted_lines(tagged_lines(views(diff_lines@), views(old_diffs@)), r.1@),
    {
        let is_code_diff = match &defaults.initial_response {
            Some(b) => b.code != self.code,
            None => false,
        };
        let mut diffs = tag_lines(diff_lines, old_diffs);
        sort_strings(&mut diffs);
        (is_code_diff, diffs)
    }

    /// Counts, for each prepared parameter that is not pinned, how many more
    /// times its value occurs than in the baseline, and records the names
    /// whose count differs from the template's reflection count.
    pub fn fill_reflected_parameters(&mut self, defaults: &RequestDefaults)
        ensures
            refl_view(final(self).reflected_parameters@) == refl_view(old(self).reflected_parameters@)
                + reflection_entries(
                old(self).request.prepared_parameters@,
                old(self).request.non_random_parameters@,
                old(self).text@,
                *defaults,
            ),
            final(self).text == old(self).text,
            final(self).code == old(self).code,
            final(self).headers == old(self).headers,
            final(self).request == old(self).request,
            final(self).additional_parameter == old(self).additional_parameter,
            final(self).time == old(self).time,
    {
        let ghost start = refl_view(self.reflected_parameters@);
        let n = self.request.prepared_parameters.len();
        let mut i: usize = 0;
        while i < n
            invariant
                i <= n,
                n == self.request.prepared_parameters@.len(),
                self.text == old(self).text,
                self.code == old(self).code,
                self.headers == old(self).headers,
                self.request == old(self).request,
                self.additional_parameter == old(self).additional_parameter,
                self.time == old(self).time,
                start == refl_view(old(self).reflected_parameters@),
                refl_view(self.reflected_parameters@) == start + reflection_entries(
                    self.request.prepared_parameters@.subrange(0, i as int),
                    self.request.non_random_parameters@,
                    self.text@,
                    *defaults,
                ),
            decreases n - i,
        {
            let ghost pp = self.request.prepared_parameters@;
            proof {
                assert(pp.subrange(0, i + 1).drop_last() =~= pp.subrange(0, i as int));
            }
            let k = self.request.prepared_parameters[i].0.clone();
            let v = self.request.prepared_parameters[i].1.clone();
            if !has_key_exec(&self.request.non_random_parameters, &k) {
                let here = count_in(&self.text, v.as_str());
                let base = baseline_count_exec(defaults, &v);
                let new_count: i128 = here as i128 - base as i128;
                if defaults.amount_of_reflections as i128 != new_count {
                    let ghost before = self.reflected_parameters@;
                    self.reflected_parameters.push((k, new_count));
                    proof {
                        assert(refl_view(self.reflected_parameters@) =~= refl_view(before).push(
                            (pp[i as int].0@, new_count as int),
                        ));
                    }
                }
            }
            i = i + 1;
        }
        proof {
            assert(self.request.prepared_parameters@.subrange(0, n as int) =~= self.request.prepared_parameters@);
        }
    }

    /// The name to report among the reflected parameters, if one can be
    /// singled out, and whether the batch must be checked again.
    pub fn proceed_reflected_parameters(&self) -> (r: (Option<String>, bool))
        ensures
            (opt_owned(r.0), r.1) == verdict(
                self.reflected_parameters@,
                self.request.prepared_parameters@.len(),
                self.additional_parameter@,
            ),
    {
        analyze_reflections(&self.reflected_parameters, self.request.prepared_parameters.len(), &self.additional_parameter)
    }

    /// Puts the headers, sorted, one per line, and a blank line in front of
    /// the text.
    fn add_headers(&mut self)
        ensures
            exists|sorted: Seq<(String, String)>|
                sorted_copy(old(self).headers@, sorted) && final(self).text@ == header_lines(sorted) + seq!['\n']
                    + old(self).text@,
            final(self).code == old(self).code,
            final(self).time == old(self).time,
            final(self).headers == old(self).headers,
            final(self).request == old(self).request,
            final(self).additional_parameter == old(self).additional_parameter,
            final(self).reflected_parameters == old(self).reflected_parameters,
    {
        let sorted = sorted_pairs(&self.headers);
        let mut t = header_text(&sorted);
        t.push('\n');
        append_chars(&mut t, &chars_of(self.text.as_str()));
        proof {
            assert(sorted_copy(self.headers@, sorted@));
            assert(t@ =~= header_lines(sorted@) + seq!['\n'] + self.text@);
        }
        self.text = text_of(t);
    }

    /// Names the page suggests, without repeats, in ascending order.
    pub fn get_possible_parameters(&self) -> (r: Vec<String>)
        ensures
            forall|x: Seq<char>| views(r@).contains(x) <==> page_candidates(self.text@).contains(x),
            forall|i: int, j: int| 0 <= i < r@.len() && 0 <= j < r@.len() && i != j ==> #[trigger] r@[i]@ != #[trigger] r@[j]@,
            forall|i: int, j: int| 0 <= i < j < r@.len() ==> chars_le(#[trigger] r@[i]@, #[trigger] r@[j]@),
    {
        let mut found: Vec<String> = Vec::new();
        push_stripped(&mut found, vec!['(', '?', 'i', ')', 'n', 'a', 'm', 'e', '=', '(', '"', '|', '\'', ')', '?', '[', '\\', 'w', '-', ']', '+'], vec!['(', '?', 'i', ')', 'n', 'a', 'm', 'e', '=', '(', '"', '|', '\'', ')', '?'], &self.text);
        push_stripped(&mut found, vec!['(', '?', 'i', ')', '(', 'v', 'a', 'r', '|', 'l', 'e', 't', '|', 'c', 'o', 'n', 's', 't', ')', '\\', 's', '+', '?', '[', '\\', 'w', '-', ']', '+'], vec!['(', '?', 'i', ')', '(', 'v', 'a', 'r', '|', 'l', 'e', 't', '|', 'c', 'o', 'n', 's', 't', ')', '\\', 's', '+', '?'], &self.text);
        push_stripped(&mut found, vec!['(', '"', '|', '\'', ')', '[', 'a', '-', 'z', 'A', '-', 'Z', '0', '-', '9', ']', '{', '3', ',', '2', '0', '}', '(', '\'', '|', '"', ')'], vec!['[', '\\', 'W', ']'], &self.text);
        push_stripped(&mut found, vec!['[', '\\', '{', ',', ']', '\\', 's', '*', '[', '[', ':', 'a', 'l', 'p', 'h', 'a', ':', ']', ']', '\\', 'w', '{', '2', ',', '2', '5', '}', ':'], vec!['[', '\\', 'W', ']'], &self.text);
        proof {
            assert(views(found@) =~= page_candidates(self.text@));
        }
        let ghost unsorted = views(found@);
        sort_strings(&mut found);
        proof {
            assert forall|x: Seq<char>| views(found@).contains(x) <==> unsorted.contains(x) by {
                broadcast use vstd::seq_lib::group_to_multiset_ensures;
                assert(views(found@).to_multiset().count(x) == unsorted.to_multiset().count(x));
            }
        }
        let mut out: Vec<String> = Vec::new();
        let mut i: usize = 0;
        while i < found.len()
            invariant
                i <= found@.len(),
                forall|a: int, b: int| 0 <= a < b < found@.len() ==> chars_le(#[trigger] found@[a]@, #[trigger] found@[b]@),
                forall|x: Seq<char>| views(found@).contains(x) <==> page_candidates(self.text@).contains(x),
                forall|x: Seq<char>| views(out@).contains(x) <==> views(found@.subrange(0, i as int)).contains(x),
                forall|a: int| 0 <= a < out@.len() ==> exists|k: int| 0 <= k < i && #[trigger] out@[a]@ == found@[k]@,
                forall|a: int, b: int| 0 <= a < out@.len() && 0 <= b < out@.len() && a != b ==> #[trigger] out@[a]@ != #[trigger] out@[b]@,
                forall|a: int, b: int| 0 <= a < b < out@.len() ==> chars_le(#[trigger] out@[a]@, #[trigger] out@[b]@),
            decreases found@.len() - i,
        {
            let c = chars_of(found[i].as_str());
            let ghost fi = found@[i as int]@;
            proof {
                assert(views(found@.subrange(0, i + 1)) =~= views(found@.subrange(0, i as int)).push(fi));
            }
            if !holds(&out, &c) {
                let ghost before = out@;
                out.push(found[i].clone());
                proof {
                    assert forall|a: int, b: int| 0 <= a < b < out@.len() implies chars_le(#[trigger] out@[a]@, #[trigger] out@[b]@) by {
                        if b == out@.len() - 1 {
                            let k = choose|k: int| 0 <= k < i && #[trigger] before[a]@ == found@[k]@;
                            assert(chars_le(found@[k]@, found@[i as int]@));
                        } else {
                            assert(chars_le(before[a]@, before[b]@));
                        }
                    }
                    assert forall|a: int| 0 <= a < out@.len() implies exists|k: int| 0 <= k < i + 1 && #[trigger] out@[a]@ == found@[k]@ by {
                        if a == out@.len() - 1 {
                            assert(out@[a]@ == found@[i as int]@);
                        } else {
                            let k = choose|k: int| 0 <= k < i && #[trigger] before[a]@ == found@[k]@;
                            assert(out@[a]@ == found@[k]@);
                        }
                    }
                    assert forall|a: int, b: int| 0 <= a < out@.len() && 0 <= b < out@.len() && a != b implies #[trigger] out@[a]@ != #[trigger] out@[b]@ by {
                        if a == out@.len() - 1 {
                            assert(views(before)[b] == before[b]@);
                        } else if b == out@.len() - 1 {
                            assert(views(before)[a] == before[a]@);
                        } else {
                            assert(before[a]@ != before[b]@);
                        }
                    }
                    assert forall|x: Seq<char>| views(out@).contains(x) <==> views(found@.subrange(0, i + 1)).contains(x) by {
                        assert(views(out@) =~= views(before).push(fi));
                        lemma_push_contains(views(before), fi, x);
                        lemma_push_contains(views(found@.subrange(0, i as int)), fi, x);
                    }
                }
            } else {
                proof {
                    assert forall|x: Seq<char>| views(out@).contains(x) <==> views(found@.subrange(0, i + 1)).contains(x) by {
                        lemma_push_contains(views(found@.subrange(0, i as int)), fi, x);
                    }
                }
            }
            i = i + 1;
        }
        proof {
            assert(found@.subrange(0, found@.len() as int) =~= found@);
        }
        out
    }

    /// The class of the status code.
    pub fn kind(&self) -> (r: Status)
        ensures
            r == kind_spec(self.code),
    {
        if self.code <= 199 {
            Status::Other
        } else if self.code <= 299 {
            Status::Success
        } else if self.code <= 399 {
            Status::Redirect
        } else if self.code <= 499 {
            Status::UserFault
        } else if self.code <= 599 {
            Status::ServerFault
        } else {
            Status::Other
        }
    }

    /// `HTTP/x <code>`, a line break, and the text.
    pub fn print(&self) -> (r: String)
        ensures
            r@ == print_spec(self.code, self.text@),
    {
        let mut out: Vec<char> = vec!['H', 'T', 'T', 'P', '/', 'x', ' '];
        append_chars(&mut out, &decimal(self.code as u64));
        out.push('\n');
        append_chars(&mut out, &chars_of(self.text.as_str()));
        proof {
            assert(out@ =~= print_spec(self.code, self.text@));
        }
        text_of(out)
    }

    /// The request as text followed by the response as text.
    pub fn print_all(&mut self, defaults: &RequestDefaults, rng: &mut Randomizer) -> (r: String)
        ensures
            exists|sorted: Seq<(String, String)>|
                sorted_copy(final(self).request.headers@, sorted) && r@ == crate::request::request_text(
                    final(self).request,
                    defaults.host@,
                    sorted,
                ) + print_spec(final(self).code, final(self).text@),
            final(self).code == old(self).code,
            final(self).text == old(self).text,
    {
        let a = self.request.print(defaults, rng);
        let b = self.print();
        let mut out = chars_of(a.as_str());
        append_chars(&mut out, &chars_of(b.as_str()));
        proof {
            let w = choose|w: Seq<(String, String)>|
                sorted_copy(self.request.headers@, w) && a@ == crate::request::request_text(self.request, defaults.host@, w);
            assert(out@ =~= crate::request::request_text(self.request, defaults.host@, w) + print_spec(self.code, self.text@));
        }
        text_of(out)
    }
}

impl Request {
    /// The placeholder for a request whose exchange failed: status 0, no
    /// headers, an empty body and no reflections. The request is prepared
    /// without a sentinel name.
    pub fn empty_response(self, defaults: &RequestDefaults, rng: &mut Randomizer) -> (r: Response)
        ensures
            r.code == 0,
            r.time == 0,
            r.headers@.len() == 0,
            r.text@.len() == 0,
            r.reflected_parameters@.len() == 0,
            r.additional_parameter@.len() == 0,
            self.prepared ==> r.request == self,
            !self.prepared ==> prepared_as(self, r.request, *defaults, None),
    {
        let mut request = self;
        request.prepare(defaults, None, rng);
        Response {
            time: 0,
            code: 0,
            headers: Vec::new(),
            text: text_of(Vec::new()),
            reflected_parameters: Vec::new(),
            additional_parameter: text_of(Vec::new()),
            request,
        }
    }
}

/// A parameter that was found, why, and the diff lines joined by `|`.
#[derive(Clone, Debug)]
pub struct FoundParameter {
    pub name: String,
    pub diffs: String,
    pub reason: String,
}

impl FoundParameter {
    pub fn new(name: String, diffs: &Vec<String>, reason: String) -> (r: Self)
        ensures
            r.name == name,
            r.reason == reason,
            r.diffs@ == join_spec(views(diffs@), seq!['|']),
    {
        let mut out: Vec<char> = Vec::new();
        let mut i: usize = 0;
        while i < diffs.len()
            invariant
                i <= diffs@.len(),
                out@ == join_spec(views(diffs@.subrange(0, i as int)), seq!['|']),
            decreases diffs@.len() - i,
        {
            proof {
                assert(views(diffs@.subrange(0, i + 1)).drop_last() =~= views(diffs@.subrange(0, i as int)));
            }
            if i > 0 {
                out.push('|');
            }
            append_chars(&mut out, &chars_of(diffs[i].as_str()));
            proof {
                if i == 0 {
                    assert(out@ =~= diffs@[0]@);
                }
                assert(out@ =~= join_spec(views(diffs@.subrange(0, i + 1)), seq!['|']));
            }
            i = i + 1;
        }
        proof {
            assert(diffs@.subrange(0, diffs@.len() as int) =~= diffs@);
        }
        FoundParameter { name, diffs: text_of(out), reason }
    }
}

/// Whether the page body and the reflection counts were stable while
/// learning.
#[derive(Debug)]
pub struct Stable {
    pub body: bool,
    pub reflections: bool,
}

/// What a batch left: names still to check and parameters found.
#[derive(Clone, Debug)]
pub struct FuturesData {
    pub remaining_params: Vec<String>,
    pub found_params: Vec<FoundParameter>,
}

/// The settings of a run.
#[derive(Clone, Debug)]
pub struct Config {
    pub url: String,
    pub wordlist: String,
    pub proxy: String,
    pub output_file: String,
    pub append: bool,
    pub output_format: String,
    pub save_responses: String,
    pub force: bool,
    pub strict: bool,
    /// Custom parameters with the values to try for each.
    pub custom_parameters: Vec<(String, Vec<String>)>,
    pub disable_custom_parameters: bool,
    pub disable_progress_bar: bool,
    pub replay_proxy: String,
    pub replay_once: bool,
    pub test: bool,
    pub verbose: usize,
    pub learn_requests_count: usize,
    pub concurrency: usize,
    pub verify: bool,
    pub reflected_only: bool,
    pub http: String,
    pub follow_redirects: bool,
}

/// A response's printed form depends on its code and text alone.
pub proof fn print_depends_on_code_and_text(a: Response, b: Response)
    requires
        a.code == b.code,
        a.text@ == b.text@,
    ensures
        print_spec(a.code, a.text@) == print_spec(b.code, b.text@),
{
}

proof fn lemma_lines_kept(lines: Seq<Seq<char>>, old: Seq<Seq<char>>)
    ensures
        forall|i: int| 0 <= i < lines.len() ==> (old.contains(#[trigger] lines[i]) || tagged_lines(lines, old).contains(lines[i])),
    decreases lines.len(),
{
    if lines.len() > 0 {
        let init = lines.drop_last();
        lemma_lines_kept(init, old);
        let prev = tagged_lines(init, old);
        let cur = tagged_lines(lines, old);
        assert forall|i: int| 0 <= i < lines.len() implies (old.contains(#[trigger] lines[i]) || cur.contains(lines[i])) by {
            if i < lines.len() - 1 {
                assert(init[i] == lines[i]);
                if prev.contains(lines[i]) {
                    let t = choose|t: int| 0 <= t < prev.len() && prev[t] == lines[i];
                    if !old.contains(lines.last()) {
                        assert(cur[t] == prev[t]);
                    }
                }
            } else {
                if !old.contains(lines.last()) {
                    if !prev.contains(lines.last()) {
                        assert(cur[prev.len() as int] == lines.last());
                    } else {
                        let t = choose|t: int| 0 <= t < prev.len() && prev[t] == lines.last();
                        assert(cur[t] == prev[t]);
                    }
                }
            }
        }
    }
}

proof fn lemma_all_old(lines: Seq<Seq<char>>, old: Seq<Seq<char>>)
    requires
        forall|i: int| 0 <= i < lines.len() ==> old.contains(#[trigger] lines[i]),
    ensures
        tagged_lines(lines, old).len() == 0,
    decreases lines.len(),
{
    if lines.len() > 0 {
        let init = lines.drop_last();
        assert forall|i: int| 0 <= i < init.len() implies old.contains(#[trigger] init[i]) by {
            assert(init[i] == lines[i]);
        }
        lemma_all_old(init, old);
        assert(old.contains(lines[lines.len() - 1]));
    }
}

/// Comparing again with the diff lines of a first comparison (made with no
/// earlier lines) as the earlier lines yields no diff lines.
pub proof fn compare_with_own_diffs_is_empty(lines: Seq<Seq<char>>, first: Seq<String>)
    requires
        sorted_lines(tagged_lines(lines, Seq::empty()), first),
    ensures
        tagged_lines(lines, views(first)).len() == 0,
{
    let t = tagged_lines(lines, Seq::empty());
    lemma_lines_kept(lines, Seq::empty());
    assert forall|i: int| 0 <= i < lines.len() implies views(first).contains(#[trigger] lines[i]) by {
        assert(!Seq::<Seq<char>>::empty().contains(lines[i]));
        assert(t.contains(lines[i]));
        assert(t.to_multiset().count(lines[i]) > 0) by {
            broadcast use vstd::seq_lib::group_to_multiset_ensures;
        }
        assert(views(first).to_multiset().count(lines[i]) > 0);
        assert(views(first).contains(lines[i])) by {
            broadcast use vstd::seq_lib::group_to_multiset_ensures;
        }
    }
    lemma_all_old(lines, views(first));
}

} // verus!
