//! One concrete request made from a template and a batch of candidate names.
use vstd::prelude::*;
use vstd::utf8::encode_utf8;
use crate::bridge::{chars_of, encode_byte, percent_triplet, string_of};
use crate::headers::{has_name, Headers};
use crate::pairs::{has_key, insert_pair, maps_to, unique_keys};
use crate::random::{is_token, Randomizer};
use crate::template::{marker, url_spec, InjectionPlace, RequestDefaults};
use crate::text::{
    append_chars, cat, contains, contains_exec, decimal, find_first, first_index, join_spec,
    lemma_occurs_shift, occurs_at, occurs_at_exec, replace_chars, replace_spec, slice_chars,
};

verus! {

/// `{{random}}`, replaced by a fresh random value wherever it occurs.
pub open spec fn random_marker() -> Seq<char> {
    seq!['{', '{', 'r', 'a', 'n', 'd', 'o', 'm', '}', '}']
}

/// `%=%`, which pins a name to a value: `name%=%value`.
pub open spec fn pin_separator() -> Seq<char> {
    seq!['%', '=', '%']
}

pub open spec fn content_type_name() -> Seq<char> {
    seq!['C', 'o', 'n', 't', 'e', 'n', 't', '-', 'T', 'y', 'p', 'e']
}

pub open spec fn json_content_type() -> Seq<char> {
    seq!['a', 'p', 'p', 'l', 'i', 'c', 'a', 't', 'i', 'o', 'n', '/', 'j', 's', 'o', 'n']
}

pub open spec fn form_content_type() -> Seq<char> {
    seq!['a', 'p', 'p', 'l', 'i', 'c', 'a', 't', 'i', 'o', 'n', '/', 'x', '-', 'w', 'w', 'w', '-', 'f', 'o', 'r', 'm', '-', 'u', 'r', 'l', 'e', 'n', 'c', 'o', 'd', 'e', 'd']
}

pub open spec fn user_agent() -> Seq<char> {
    seq!['M', 'o', 'z', 'i', 'l', 'l', 'a', '/', '5', '.', '0', ' ', '(', 'W', 'i', 'n', 'd', 'o', 'w', 's', ' ', 'N', 'T', ' ', '1', '0', '.', '0', ';', ' ', 'W', 'i', 'n', '6', '4', ';', ' ', 'x', '6', '4', ')', ' ', 'A', 'p', 'p', 'l', 'e', 'W', 'e', 'b', 'K', 'i', 't', '/', '5', '3', '7', '.', '3', '6', ' ', '(', 'K', 'H', 'T', 'M', 'L', ',', ' ', 'l', 'i', 'k', 'e', ' ', 'G', 'e', 'c', 'k', 'o', ')', ' ', 'C', 'h', 'r', 'o', 'm', 'e', '/', '9', '9', '.', '0', '.', '4', '8', '4', '4', '.', '8', '2', ' ', 'S', 'a', 'f', 'a', 'r', 'i', '/', '5', '3', '7', '.', '3', '6']
}

/// `r` is `s` with each `{{random}}` replaced by its own random value.
pub open spec fn random_filled(s: Seq<char>, r: Seq<char>) -> bool
    decreases s.len(),
{
    if s.len() == 0 {
        r.len() == 0
    } else if occurs_at(s, 0, random_marker()) {
        r.len() >= 5 && is_token(r.subrange(0, 5), 5) && random_filled(
            s.subrange(10, s.len() as int),
            r.subrange(5, r.len() as int),
        )
    } else {
        r.len() > 0 && r[0] == s[0] && random_filled(s.subrange(1, s.len() as int), r.subrange(1, r.len() as int))
    }
}

/// The name and the pinned value of `name%=%value`, split at the first
/// separator. `None` without a separator.
pub open spec fn pinned(n: Seq<char>) -> Option<(Seq<char>, Seq<char>)> {
    if contains(n, pin_separator()) {
        let i = first_index(n, pin_separator());
        Some((n.subrange(0, i), n.subrange(i + 3, n.len() as int)))
    } else {
        None
    }
}

/// A name that gets a random value: not empty, and not pinned.
pub open spec fn is_plain(n: Seq<char>) -> bool {
    n.len() > 0 && !contains(n, pin_separator())
}

/// `v` is the value pinned to `k` by the last entry of `ps` that pins `k`.
pub open spec fn pinned_last(ps: Seq<String>, k: Seq<char>, v: Seq<char>) -> bool
    decreases ps.len(),
{
    if ps.len() == 0 {
        false
    } else {
        match pinned(ps.last()@) {
            Some(p) => if p.0 == k {
                p.1 == v
            } else {
                pinned_last(ps.drop_last(), k, v)
            },
            None => pinned_last(ps.drop_last(), k, v),
        }
    }
}

/// Some entry of `ps` pins a value to `k`.
pub open spec fn pins_name(ps: Seq<String>, k: Seq<char>) -> bool
    decreases ps.len(),
{
    if ps.len() == 0 {
        false
    } else {
        (pinned(ps.last()@) matches Some(p) && p.0 == k) || pins_name(ps.drop_last(), k)
    }
}

/// Some entry of `ps` is the plain name `k`.
pub open spec fn plain_in(ps: Seq<String>, k: Seq<char>) -> bool {
    is_plain(k) && exists|j: int| 0 <= j < ps.len() && #[trigger] ps[j]@ == k
}

pub open spec fn opt_string(o: Option<&String>) -> Option<Seq<char>> {
    match o {
        Some(s) => Some(s@),
        None => None,
    }
}

/// The name that receives a random value: a plain candidate, or the extra
/// sentinel when one is given and plain.
pub open spec fn random_name(ps: Seq<String>, extra: Option<Seq<char>>, k: Seq<char>) -> bool {
    plain_in(ps, k) || (extra == Some(k) && is_plain(k))
}

/// `{k}` and `{v}` in the parameter template replaced by a name and a value.
pub open spec fn render(template: Seq<char>, k: Seq<char>, v: Seq<char>) -> Seq<char> {
    replace_spec(replace_spec(template, seq!['{', 'k', '}'], k), seq!['{', 'v', '}'], v)
}

pub open spec fn rendered(pp: Seq<(String, String)>, template: Seq<char>) -> Seq<Seq<char>>
    decreases pp.len(),
{
    if pp.len() == 0 {
        Seq::empty()
    } else {
        rendered(pp.drop_last(), template).push(render(template, pp.last().0@, pp.last().1@))
    }
}

/// The bytes that are percent-encoded: controls, non-ASCII, and
/// space `"` `<` `>` `` ` `` `&` `#` `;` `/` `=` `%`.
pub open spec fn in_fragment(b: u8) -> bool {
    b < 0x20 || b >= 0x7f || b == 0x20 || b == 0x22 || b == 0x3c || b == 0x3e || b == 0x60
        || b == 0x26 || b == 0x23 || b == 0x3b || b == 0x2f || b == 0x3d || b == 0x25
}

pub open spec fn percent_piece(b: u8) -> Seq<char> {
    if in_fragment(b) {
        percent_triplet(b)
    } else {
        seq![b as char]
    }
}

/// The UTF-8 bytes of a query, each byte of the fragment set percent-encoded.
pub open spec fn percent_spec(bytes: Seq<u8>) -> Seq<char>
    decreases bytes.len(),
{
    if bytes.len() == 0 {
        Seq::empty()
    } else {
        percent_spec(bytes.drop_last()) + percent_piece(bytes.last())
    }
}

/// The query: each parameter rendered through the template, joined by the
/// joiner, percent-encoded when `encode` is set.
pub open spec fn query_spec(pp: Seq<(String, String)>, template: Seq<char>, joiner: Seq<char>, encode: bool) -> Seq<char> {
    let q = join_spec(rendered(pp, template), joiner);
    if encode {
        percent_spec(encode_utf8(q))
    } else {
        q
    }
}

/// `dst` copies the pairs of `src`, each value with `{{random}}` filled.
pub open spec fn filled_copy(src: Seq<(String, String)>, dst: Seq<(String, String)>) -> bool {
    dst.len() == src.len() && forall|i: int|
        0 <= i < src.len() ==> #[trigger] dst[i].0@ == src[i].0@ && random_filled(src[i].1@, dst[i].1@)
}

/// `dst` copies the pairs of `src`, each value with `{{random}}` filled and
/// the marker replaced by the query `q`.
pub open spec fn injected_copy(src: Seq<(String, String)>, dst: Seq<(String, String)>, q: Seq<char>) -> bool {
    dst.len() == src.len() && forall|i: int|
        0 <= i < src.len() ==> #[trigger] dst[i].0@ == src[i].0@ && exists|f: Seq<char>|
            random_filled(src[i].1@, f) && dst[i].1@ == replace_spec(f, marker(), q)
}

/// `dst` holds one header per candidate name, each with a random value.
pub open spec fn named_tokens(ps: Seq<String>, dst: Seq<(String, String)>) -> bool {
    dst.len() == ps.len() && forall|i: int|
        0 <= i < ps.len() ==> #[trigger] dst[i].0@ == ps[i]@ && is_token(dst[i].1@, 5)
}

/// The headers that preparing adds, after those the request already had.
pub open spec fn headers_added(
    d: RequestDefaults,
    ps: Seq<String>,
    q: Seq<char>,
    added: Seq<(String, String)>,
) -> bool {
    let custom = d.custom_headers@;
    match d.injection_place {
        InjectionPlace::Path => filled_copy(custom, added),
        InjectionPlace::Body => if has_name(custom, content_type_name()) {
            filled_copy(custom, added)
        } else {
            added.len() == custom.len() + 1 && filled_copy(custom, added.drop_last())
                && added.last().0@ == content_type_name() && added.last().1@ == (if d.is_json {
                json_content_type()
            } else {
                form_content_type()
            })
        },
        InjectionPlace::HeaderValue => injected_copy(custom, added, q),
        InjectionPlace::Headers => added.len() == custom.len() + ps.len() && filled_copy(
            custom,
            added.subrange(0, custom.len() as int),
        ) && named_tokens(ps, added.subrange(custom.len() as int, added.len() as int)),
    }
}

/// The pinned names map to the value that their last entry pins.
pub open spec fn pinned_map(ps: Seq<String>, nr: Seq<(String, String)>) -> bool {
    &&& unique_keys(nr)
    &&& forall|k: Seq<char>| has_key(nr, k) <==> pins_name(ps, k)
    &&& forall|k: Seq<char>, v: Seq<char>| maps_to(nr, k, v) <==> pinned_last(ps, k, v)
}

/// The prepared parameters: every random name with a fresh value, and every
/// pinned name with its pinned value.
pub open spec fn prepared_map(
    ps: Seq<String>,
    extra: Option<Seq<char>>,
    nr: Seq<(String, String)>,
    pp: Seq<(String, String)>,
) -> bool {
    &&& unique_keys(pp)
    &&& forall|k: Seq<char>| has_key(pp, k) <==> (random_name(ps, extra, k) || has_key(nr, k))
    &&& forall|k: Seq<char>, v: Seq<char>| maps_to(pp, k, v) && has_key(nr, k) ==> maps_to(nr, k, v)
    &&& forall|k: Seq<char>, v: Seq<char>| maps_to(pp, k, v) && !has_key(nr, k) ==> is_token(v, 5)
}

/// `new` is `old` prepared against the template `d`, with `extra` as the
/// sentinel name.
pub open spec fn prepared_as(old: Request, new: Request, d: RequestDefaults, extra: Option<Seq<char>>) -> bool {
    let q = query_spec(new.prepared_parameters@, d.template@, d.joiner@, d.encode);
    &&& new.prepared
    &&& new.method == old.method
    &&& new.parameters == old.parameters
    &&& new.delay == old.delay
    &&& pinned_map(old.parameters@, new.non_random_parameters@)
    &&& prepared_map(old.parameters@, extra, new.non_random_parameters@, new.prepared_parameters@)
    &&& if d.injection_place == InjectionPlace::Path {
        exists|f: Seq<char>| random_filled(d.path@, f) && new.path@ == replace_spec(f, marker(), q)
    } else {
        random_filled(d.path@, new.path@)
    }
    &&& if d.injection_place == InjectionPlace::Body {
        exists|f: Seq<char>| random_filled(d.body@, f) && new.body@ == replace_spec(f, marker(), q)
    } else {
        random_filled(d.body@, new.body@)
    }
    &&& new.headers@.len() >= old.headers@.len()
    &&& new.headers@.subrange(0, old.headers@.len() as int) == old.headers@
    &&& headers_added(d, old.parameters@, q, new.headers@.subrange(old.headers@.len() as int, new.headers@.len() as int))
}

/// What preparing `old` against `d` gives: `old` itself when it was
/// prepared already, else a prepared request.
pub open spec fn prepare_post(old: Request, new: Request, d: RequestDefaults, extra: Option<Seq<char>>) -> bool {
    &&& old.prepared ==> new == old
    &&& !old.prepared ==> prepared_as(old, new, d, extra)
}

/// Preparing twice gives the same request as preparing once, whatever the
/// sentinel names.
pub proof fn prepare_is_idempotent(
    a: Request,
    b: Request,
    c: Request,
    d: RequestDefaults,
    first: Option<Seq<char>>,
    second: Option<Seq<char>>,
)
    requires
        prepare_post(a, b, d, first),
        prepare_post(b, c, d, second),
    ensures
        c == b,
{
}

/// A request materialised from a template and a list of candidate names.
#[derive(Clone, Debug)]
pub struct Request {
    pub path: String,
    pub method: String,
    pub headers: Vec<(String, String)>,
    /// The candidate names, as supplied.
    pub parameters: Vec<String>,
    /// Each parameter name with the value it is sent with.
    pub prepared_parameters: Vec<(String, String)>,
    /// Names whose value was pinned with `name%=%value`.
    pub non_random_parameters: Vec<(String, String)>,
    pub body: String,
    /// Delay before sending, in milliseconds.
    pub delay: u64,
    pub prepared: bool,
}

fn text_of(v: Vec<char>) -> (r: String)
    ensures
        r@ == v@,
{
    string_of(&v)
}

/// `s` with each `{{random}}` replaced by its own fresh value.
pub fn fill_random(s: &String, rng: &mut Randomizer) -> (r: String)
    ensures
        random_filled(s@, r@),
{
    let c = chars_of(s.as_str());
    let m: Vec<char> = vec!['{', '{', 'r', 'a', 'n', 'd', 'o', 'm', '}', '}'];
    proof {
        assert(m@ =~= random_marker());
    }
    let mut out: Vec<char> = Vec::new();
    let mut i: usize = 0;
    proof {
        assert(c@.subrange(0, c@.len() as int) =~= c@);
        assert forall|rest: Seq<char>| out@ + rest =~= rest by {}
    }
    while i < c.len()
        invariant
            i <= c@.len(),
            c@ == s@,
            m@ == random_marker(),
            forall|rest: Seq<char>|
                random_filled(#[trigger] c@.subrange(i as int, c@.len() as int), rest) ==> random_filled(
                    c@,
                    out@ + rest,
                ),
        decreases c@.len() - i,
    {
        let ghost suffix = c@.subrange(i as int, c@.len() as int);
        proof {
            lemma_occurs_shift(c@, i as int, m@);
        }
        if occurs_at_exec(&c, i, &m) {
            let t = rng.random_line(5);
            let tc = chars_of(t.as_str());
            let ghost before = out@;
            append_chars(&mut out, &tc);
            proof {
                assert(occurs_at(suffix, 0, random_marker())) by {
                    assert(suffix.subrange(0, 10) =~= c@.subrange(i as int, i + 10));
                }
                assert(suffix.subrange(10, suffix.len() as int) =~= c@.subrange(i + 10, c@.len() as int));
                assert forall|rest: Seq<char>|
                    random_filled(#[trigger] c@.subrange(i + 10, c@.len() as int), rest) implies random_filled(
                        c@,
                        out@ + rest,
                    ) by {
                    let r2 = tc@ + rest;
                    assert(r2.subrange(0, 5) =~= tc@);
                    assert(r2.subrange(5, r2.len() as int) =~= rest);
                    assert(random_filled(suffix, r2));
                    assert(before + r2 =~= out@ + rest);
                }
            }
            i = i + 10;
        } else {
            let ch = c[i];
            let ghost before = out@;
            out.push(ch);
            proof {
                assert(suffix.subrange(1, suffix.len() as int) =~= c@.subrange(i + 1, c@.len() as int));
                assert forall|rest: Seq<char>|
                    random_filled(#[trigger] c@.subrange(i + 1, c@.len() as int), rest) implies random_filled(
                        c@,
                        out@ + rest,
                    ) by {
                    let r2 = seq![ch] + rest;
                    assert(suffix[0] == ch);
                    assert(r2.subrange(1, r2.len() as int) =~= rest);
                    assert(random_filled(suffix, r2));
                    assert(random_filled(c@.subrange(i as int, c@.len() as int), r2));
                    assert(random_filled(c@, before + r2));
                    assert(before + r2 =~= out@ + rest);
                }
            }
            i = i + 1;
        }
    }
    proof {
        let e = Seq::<char>::empty();
        assert(c@.subrange(i as int, c@.len() as int) =~= e);
        assert(random_filled(e, e));
        assert(out@ + e =~= out@);
    }
    text_of(out)
}

/// The name and pinned value of `name%=%value`; `None` without a separator.
pub fn split_pinned(n: &String) -> (r: Option<(String, String)>)
    ensures
        r is None <==> pinned(n@) is None,
        r matches Some(p) ==> pinned(n@) == Some((p.0@, p.1@)),
{
    let c = chars_of(n.as_str());
    let sep: Vec<char> = vec!['%', '=', '%'];
    proof {
        assert(sep@ =~= pin_separator());
    }
    match find_first(&c, &sep) {
        None => None,
        Some(i) => {
            assert(sep@.len() == 3);
            assert(occurs_at(c@, i as int, sep@));
            let n = c.len();
            assert(i + 3 <= n);
            let value = slice_chars(&c, i + 3, n);
            let name = slice_chars(&c, 0, i);
            Some((text_of(name), text_of(value)))
        },
    }
}

proof fn lemma_has_key_extend(s: Seq<(String, String)>, j: int, k: Seq<char>)
    requires
        0 <= j < s.len(),
    ensures
        has_key(s.subrange(0, j + 1), k) <==> (has_key(s.subrange(0, j), k) || s[j].0@ == k),
{
    let a = s.subrange(0, j);
    let b = s.subrange(0, j + 1);
    if has_key(b, k) {
        let t = choose|t: int| 0 <= t < b.len() && #[trigger] b[t].0@ == k;
        if t < j {
            assert(a[t].0@ == k);
        }
    }
    if has_key(a, k) {
        let t = choose|t: int| 0 <= t < a.len() && #[trigger] a[t].0@ == k;
        assert(b[t].0@ == k);
    }
    if s[j].0@ == k {
        assert(b[j].0@ == k);
    }
}

proof fn lemma_plain_in_extend(ps: Seq<String>, i: int, k: Seq<char>)
    requires
        0 <= i < ps.len(),
    ensures
        plain_in(ps.subrange(0, i + 1), k) <==> (plain_in(ps.subrange(0, i), k) || (ps[i]@ == k
            && is_plain(k))),
{
    let a = ps.subrange(0, i);
    let b = ps.subrange(0, i + 1);
    if plain_in(b, k) {
        let t = choose|t: int| 0 <= t < b.len() && #[trigger] b[t]@ == k;
        if t < i {
            assert(a[t]@ == k);
        }
    }
    if plain_in(a, k) {
        let t = choose|t: int| 0 <= t < a.len() && #[trigger] a[t]@ == k;
        assert(b[t]@ == k);
    }
    if ps[i]@ == k && is_plain(k) {
        assert(b[i]@ == k);
    }
}

/// The pinned names of `ps`, each with the value its last entry pins.
pub fn pinned_parameters(ps: &Vec<String>) -> (r: Vec<(String, String)>)
    ensures
        pinned_map(ps@, r@),
{
    let mut nr: Vec<(String, String)> = Vec::new();
    let mut i: usize = 0;
    while i < ps.len()
        invariant
            i <= ps@.len(),
            pinned_map(ps@.subrange(0, i as int), nr@),
        decreases ps@.len() - i,
    {
        let ghost sub = ps@.subrange(0, i as int);
        let ghost next = ps@.subrange(0, i + 1);
        proof {
            assert(next.drop_last() =~= sub);
            assert(next.last() == ps@[i as int]);
        }
        match split_pinned(&ps[i]) {
            Some((name, value)) => {
                let ghost nv = name@;
                let ghost vv = value@;
                insert_pair(&mut nr, name, value);
                proof {
                    assert forall|k: Seq<char>| has_key(nr@, k) <==> pins_name(next, k) by {}
                    assert forall|k: Seq<char>, v: Seq<char>| maps_to(nr@, k, v) <==> pinned_last(next, k, v) by {}
                }
            },
            None => {
                proof {
                    assert forall|k: Seq<char>| has_key(nr@, k) <==> pins_name(next, k) by {}
                    assert forall|k: Seq<char>, v: Seq<char>| maps_to(nr@, k, v) <==> pinned_last(next, k, v) by {}
                }
            },
        }
        i = i + 1;
    }
    proof {
        assert(ps@.subrange(0, ps@.len() as int) =~= ps@);
    }
    nr
}

/// Whether `n` gets a random value: not empty and not pinned.
fn plain_exec(n: &String) -> (r: bool)
    ensures
        r == is_plain(n@),
{
    let c = chars_of(n.as_str());
    let sep: Vec<char> = vec!['%', '=', '%'];
    proof {
        assert(sep@ =~= pin_separator());
    }
    c.len() > 0 && !contains_exec(&c, &sep)
}

/// Every random name with a fresh value, then every pinned name with its
/// pinned value (which wins over a random one of the same name).
pub fn prepared_parameters_of(
    ps: &Vec<String>,
    extra: Option<&String>,
    nr: &Vec<(String, String)>,
    rng: &mut Randomizer,
) -> (r: Vec<(String, String)>)
    requires
        unique_keys(nr@),
    ensures
        prepared_map(ps@, opt_string(extra), nr@, r@),
{
    let mut pp: Vec<(String, String)> = Vec::new();
    let mut i: usize = 0;
    while i < ps.len()
        invariant
            i <= ps@.len(),
            unique_keys(pp@),
            forall|k: Seq<char>| has_key(pp@, k) <==> plain_in(ps@.subrange(0, i as int), k),
            forall|k: Seq<char>, v: Seq<char>| maps_to(pp@, k, v) ==> is_token(v, 5),
        decreases ps@.len() - i,
    {
        proof {
            assert forall|k: Seq<char>|
                plain_in(ps@.subrange(0, i + 1), k) <==> (plain_in(ps@.subrange(0, i as int), k) || (ps@[i as int]@ == k && is_plain(k))) by {
                lemma_plain_in_extend(ps@, i as int, k);
            }
        }
        if plain_exec(&ps[i]) {
            let v = rng.random_line(5);
            insert_pair(&mut pp, ps[i].clone(), v);
        }
        i = i + 1;
    }
    proof {
        assert(ps@.subrange(0, ps@.len() as int) =~= ps@);
    }
    match extra {
        Some(a) => {
            if plain_exec(a) {
                let v = rng.random_line(5);
                insert_pair(&mut pp, a.clone(), v);
            }
        },
        None => {},
    }
    assert forall|k: Seq<char>| has_key(pp@, k) <==> random_name(ps@, opt_string(extra), k) by {}
    let mut j: usize = 0;
    proof {
        assert forall|k: Seq<char>| !has_key(nr@.subrange(0, 0), k) by {}
    }
    while j < nr.len()
        invariant
            j <= nr@.len(),
            unique_keys(nr@),
            unique_keys(pp@),
            forall|k: Seq<char>|
                has_key(pp@, k) <==> (random_name(ps@, opt_string(extra), k) || has_key(nr@.subrange(0, j as int), k)),
            forall|k: Seq<char>, v: Seq<char>|
                maps_to(pp@, k, v) && has_key(nr@.subrange(0, j as int), k) ==> maps_to(nr@, k, v),
            forall|k: Seq<char>, v: Seq<char>|
                maps_to(pp@, k, v) && !has_key(nr@.subrange(0, j as int), k) ==> is_token(v, 5),
        decreases nr@.len() - j,
    {
        let ghost kj = nr@[j as int].0@;
        let ghost vj = nr@[j as int].1@;
        let ghost before = pp@;
        proof {
            assert(maps_to(nr@, kj, vj));
        }
        insert_pair(&mut pp, nr[j].0.clone(), nr[j].1.clone());
        proof {
            assert forall|k: Seq<char>|
                has_key(pp@, k) <==> (random_name(ps@, opt_string(extra), k) || has_key(nr@.subrange(0, j + 1), k)) by {
                lemma_has_key_extend(nr@, j as int, k);
            }
            assert forall|k: Seq<char>, v: Seq<char>|
                maps_to(pp@, k, v) && has_key(nr@.subrange(0, j + 1), k) implies maps_to(nr@, k, v) by {
                lemma_has_key_extend(nr@, j as int, k);
            }
            assert forall|k: Seq<char>, v: Seq<char>|
                maps_to(pp@, k, v) && !has_key(nr@.subrange(0, j + 1), k) implies is_token(v, 5) by {
                lemma_has_key_extend(nr@, j as int, k);
                assert(k != kj);
                assert(maps_to(before, k, v));
            }
        }
        j = j + 1;
    }
    proof {
        assert(nr@.subrange(0, nr@.len() as int) =~= nr@);
    }
    pp
}

proof fn lemma_rendered_len(pp: Seq<(String, String)>, template: Seq<char>)
    ensures
        rendered(pp, template).len() == pp.len(),
    decreases pp.len(),
{
    if pp.len() > 0 {
        lemma_rendered_len(pp.drop_last(), template);
    }
}

/// The parameters rendered through the template and joined.
fn joined_query(pp: &Vec<(String, String)>, template: &String, joiner: &String) -> (r: Vec<char>)
    ensures
        r@ == join_spec(rendered(pp@, template@), joiner@),
{
    let t = chars_of(template.as_str());
    let j = chars_of(joiner.as_str());
    let kk: Vec<char> = vec!['{', 'k', '}'];
    let vv: Vec<char> = vec!['{', 'v', '}'];
    proof {
        assert(kk@ =~= seq!['{', 'k', '}']);
        assert(vv@ =~= seq!['{', 'v', '}']);
    }
    let mut out: Vec<char> = Vec::new();
    let mut i: usize = 0;
    while i < pp.len()
        invariant
            i <= pp@.len(),
            t@ == template@,
            j@ == joiner@,
            kk@ == seq!['{', 'k', '}'],
            vv@ == seq!['{', 'v', '}'],
            out@ == join_spec(rendered(pp@.subrange(0, i as int), template@), joiner@),
        decreases pp@.len() - i,
    {
        let k = chars_of(pp[i].0.as_str());
        let v = chars_of(pp[i].1.as_str());
        let part = replace_chars(&replace_chars(&t, &kk, &k), &vv, &v);
        let ghost sub = pp@.subrange(0, i as int);
        let ghost next = pp@.subrange(0, i + 1);
        proof {
            assert(next.drop_last() =~= sub);
            lemma_rendered_len(sub, template@);
            lemma_rendered_len(next, template@);
            assert(rendered(next, template@) == rendered(sub, template@).push(part@));
            assert(rendered(next, template@).drop_last() =~= rendered(sub, template@));
        }
        if i > 0 {
            append_chars(&mut out, &j);
        }
        append_chars(&mut out, &part);
        proof {
            if i == 0 {
                assert(rendered(sub, template@).len() == 0);
                assert(out@ =~= part@);
            }
        }
        i = i + 1;
    }
    proof {
        assert(pp@.subrange(0, pp@.len() as int) =~= pp@);
    }
    out
}

/// The UTF-8 bytes of `q`, each byte of the fragment set percent-encoded.
fn percent_encode_query(q: &Vec<char>) -> (r: Vec<char>)
    ensures
        r@ == percent_spec(encode_utf8(q@)),
{
    let qs = text_of(q.clone());
    let bytes = qs.as_str().as_bytes();
    let mut out: Vec<char> = Vec::new();
    let mut i: usize = 0;
    while i < bytes.len()
        invariant
            i <= bytes@.len(),
            out@ == percent_spec(bytes@.subrange(0, i as int)),
        decreases bytes@.len() - i,
    {
        let b: u8 = bytes[i];
        proof {
            assert(bytes@.subrange(0, i + 1).drop_last() =~= bytes@.subrange(0, i as int));
        }
        if b < 0x20 || b >= 0x7f || b == 0x20 || b == 0x22 || b == 0x3c || b == 0x3e || b == 0x60
            || b == 0x26 || b == 0x23 || b == 0x3b || b == 0x2f || b == 0x3d || b == 0x25 {
            let e = encode_byte(b);
            append_chars(&mut out, &chars_of(e.as_str()));
        } else {
            out.push(b as char);
        }
        i = i + 1;
    }
    proof {
        assert(bytes@.subrange(0, bytes@.len() as int) =~= bytes@);
    }
    out
}

/// The query for these parameters and settings.
pub fn query_of(pp: &Vec<(String, String)>, template: &String, joiner: &String, encode: bool) -> (r: String)
    ensures
        r@ == query_spec(pp@, template@, joiner@, encode),
{
    let q = joined_query(pp, template, joiner);
    if encode {
        text_of(percent_encode_query(&q))
    } else {
        text_of(q)
    }
}

/// The pairs of `src`, each value with `{{random}}` filled.
fn filled_headers(src: &Vec<(String, String)>, rng: &mut Randomizer) -> (r: Vec<(String, String)>)
    ensures
        filled_copy(src@, r@),
{
    let mut r: Vec<(String, String)> = Vec::new();
    let mut i: usize = 0;
    while i < src.len()
        invariant
            i <= src@.len(),
            r@.len() == i,
            forall|t: int| 0 <= t < i ==> #[trigger] r@[t].0@ == src@[t].0@ && random_filled(src@[t].1@, r@[t].1@),
        decreases src@.len() - i,
    {
        let v = fill_random(&src[i].1, rng);
        r.push((src[i].0.clone(), v));
        i = i + 1;
    }
    r
}

/// The pairs of `src`, each value with `{{random}}` filled and the marker
/// replaced by `q`.
fn injected_headers(src: &Vec<(String, String)>, q: &Vec<char>, rng: &mut Randomizer) -> (r: Vec<(String, String)>)
    ensures
        injected_copy(src@, r@, q@),
{
    let m: Vec<char> = vec!['%', 's'];
    proof {
        assert(m@ =~= marker());
    }
    let mut r: Vec<(String, String)> = Vec::new();
    let mut i: usize = 0;
    while i < src.len()
        invariant
            i <= src@.len(),
            m@ == marker(),
            r@.len() == i,
            forall|t: int| 0 <= t < i ==> #[trigger] r@[t].0@ == src@[t].0@ && exists|f: Seq<char>|
                random_filled(src@[t].1@, f) && r@[t].1@ == replace_spec(f, marker(), q@),
        decreases src@.len() - i,
    {
        let f = fill_random(&src[i].1, rng);
        let v = replace_chars(&chars_of(f.as_str()), &m, q);
        r.push((src[i].0.clone(), text_of(v)));
        proof {
            assert(random_filled(src@[i as int].1@, f@) && r@[i as int].1@ == replace_spec(f@, marker(), q@));
        }
        i = i + 1;
    }
    r
}

/// One header per candidate name, each with a fresh random value.
fn token_headers(ps: &Vec<String>, rng: &mut Randomizer) -> (r: Vec<(String, String)>)
    ensures
        named_tokens(ps@, r@),
{
    let mut r: Vec<(String, String)> = Vec::new();
    let mut i: usize = 0;
    while i < ps.len()
        invariant
            i <= ps@.len(),
            r@.len() == i,
            forall|t: int| 0 <= t < i ==> #[trigger] r@[t].0@ == ps@[t]@ && is_token(r@[t].1@, 5),
        decreases ps@.len() - i,
    {
        let v = rng.random_line(5);
        r.push((ps[i].clone(), v));
        i = i + 1;
    }
    r
}

/// Appends the pairs of `src` to `dst`.
pub fn extend_pairs(dst: &mut Vec<(String, String)>, src: &Vec<(String, String)>)
    ensures
        final(dst)@ == old(dst)@ + src@,
{
    let mut i: usize = 0;
    while i < src.len()
        invariant
            i <= src@.len(),
            dst@ == old(dst)@ + src@.subrange(0, i as int),
        decreases src@.len() - i,
    {
        let p = (src[i].0.clone(), src[i].1.clone());
        dst.push(p);
        proof {
            assert(src@.subrange(0, i + 1) =~= src@.subrange(0, i as int).push(src@[i as int]));
        }
        i = i + 1;
    }
    proof {
        assert(src@.subrange(0, src@.len() as int) =~= src@);
    }
}

/// One line per header, `name: value`, in the order given.
pub open spec fn header_lines(h: Seq<(String, String)>) -> Seq<char>
    decreases h.len(),
{
    if h.len() == 0 {
        Seq::empty()
    } else {
        header_lines(h.drop_last()) + h.last().0@ + seq![':', ' '] + h.last().1@ + seq!['\n']
    }
}

/// `h` in ascending order of name, then value.
pub open spec fn sorted_copy(h: Seq<(String, String)>, s: Seq<(String, String)>) -> bool {
    s.to_multiset() == h.to_multiset() && forall|i: int, j: int|
        0 <= i < j < s.len() ==> crate::bridge::pair_le(#[trigger] s[i], #[trigger] s[j])
}

/// `method path HTTP/x`, the host line, the headers in order, a blank line
/// and the body.
pub open spec fn request_text(r: Request, host: Seq<char>, sorted: Seq<(String, String)>) -> Seq<char> {
    r.method@ + seq![' '] + r.path@ + seq![' ', 'H', 'T', 'T', 'P', '/', 'x', '\n', 'H', 'o', 's', 't', ':', ' '] + host + seq!['\n'] + header_lines(sorted)
        + seq!['\n'] + r.body@
}

/// The header lines of `h`, in its order.
pub fn header_text(h: &Vec<(String, String)>) -> (r: Vec<char>)
    ensures
        r@ == header_lines(h@),
{
    let mut out: Vec<char> = Vec::new();
    let mut i: usize = 0;
    while i < h.len()
        invariant
            i <= h@.len(),
            out@ == header_lines(h@.subrange(0, i as int)),
        decreases h@.len() - i,
    {
        proof {
            assert(h@.subrange(0, i + 1).drop_last() =~= h@.subrange(0, i as int));
        }
        append_chars(&mut out, &chars_of(h[i].0.as_str()));
        append_chars(&mut out, &vec![':', ' ']);
        append_chars(&mut out, &chars_of(h[i].1.as_str()));
        out.push('\n');
        proof {
            assert(out@ =~= header_lines(h@.subrange(0, i + 1)));
        }
        i = i + 1;
    }
    proof {
        assert(h@.subrange(0, h@.len() as int) =~= h@);
    }
    out
}

impl Request {
    /// A request for the template `l` carrying the candidate names
    /// `parameters`; it holds a browser User-Agent. The template's own headers
    /// are added, filled, when the request is prepared.
    pub fn new(l: &RequestDefaults, parameters: Vec<String>) -> (r: Self)
        ensures
            r.method@ == l.method@,
            r.path@ == l.path@,
            r.headers@.len() == 1,
            r.headers@[0].0@ == seq!['U', 's', 'e', 'r', '-', 'A', 'g', 'e', 'n', 't'],
            r.headers@[0].1@ == user_agent(),
            r.parameters == parameters,
            r.prepared_parameters@.len() == 0,
            r.non_random_parameters@.len() == 0,
            r.body@.len() == 0,
            r.delay == l.delay,
            !r.prepared,
    {
        let ua = (text_of(vec!['U', 's', 'e', 'r', '-', 'A', 'g', 'e', 'n', 't']), text_of(vec!['M', 'o', 'z', 'i', 'l', 'l', 'a', '/', '5', '.', '0', ' ', '(', 'W', 'i', 'n', 'd', 'o', 'w', 's', ' ', 'N', 'T', ' ', '1', '0', '.', '0', ';', ' ', 'W', 'i', 'n', '6', '4', ';', ' ', 'x', '6', '4', ')', ' ', 'A', 'p', 'p', 'l', 'e', 'W', 'e', 'b', 'K', 'i', 't', '/', '5', '3', '7', '.', '3', '6', ' ', '(', 'K', 'H', 'T', 'M', 'L', ',', ' ', 'l', 'i', 'k', 'e', ' ', 'G', 'e', 'c', 'k', 'o', ')', ' ', 'C', 'h', 'r', 'o', 'm', 'e', '/', '9', '9', '.', '0', '.', '4', '8', '4', '4', '.', '8', '2', ' ', 'S', 'a', 'f', 'a', 'r', 'i', '/', '5', '3', '7', '.', '3', '6']));
        let headers: Vec<(String, String)> = vec![ua];
        Request {
            path: l.path.clone(),
            method: l.method.clone(),
            headers,
            parameters,
            prepared_parameters: Vec::new(),
            non_random_parameters: Vec::new(),
            body: text_of(Vec::new()),
            delay: l.delay,
            prepared: false,
        }
    }

    /// A request carrying `max` random names.
    pub fn new_random(l: &RequestDefaults, max: usize, rng: &mut Randomizer) -> (r: Self)
        ensures
            r.parameters@.len() == max,
            forall|i: int| 0 <= i < max ==> is_token(#[trigger] r.parameters@[i]@, 5),
            r.method@ == l.method@,
            r.path@ == l.path@,
            !r.prepared,
    {
        let mut parameters: Vec<String> = Vec::new();
        let mut i: usize = 0;
        while i < max
            invariant
                i <= max,
                parameters@.len() == i,
                forall|t: int| 0 <= t < i ==> is_token(#[trigger] parameters@[t]@, 5),
            decreases max - i,
        {
            parameters.push(rng.random_line(5));
            i = i + 1;
        }
        Request::new(l, parameters)
    }

    /// Adds a header after the present ones.
    pub fn set_header(&mut self, key: String, value: String)
        ensures
            final(self).headers@ == old(self).headers@.push((key, value)),
            final(self).path == old(self).path,
            final(self).body == old(self).body,
            final(self).prepared == old(self).prepared,
    {
        self.headers.push((key, value));
    }

    /// Adds the given headers, in order, after the present ones.
    pub fn set_headers(&mut self, headers: Vec<(String, String)>)
        ensures
            final(self).headers@ == old(self).headers@ + headers@,
            final(self).path == old(self).path,
            final(self).body == old(self).body,
            final(self).prepared == old(self).prepared,
    {
        extend_pairs(&mut self.headers, &headers);
    }

    /// `scheme://host:port<path>` with this request's path.
    pub fn url(&self, defaults: &RequestDefaults) -> (r: String)
        ensures
            r@ == url_spec(defaults.scheme@, defaults.host@, defaults.port, self.path@),
    {
        let r = cat(
            &cat(
                &cat(&cat(&chars_of(defaults.scheme.as_str()), &vec![':', '/', '/']), &chars_of(defaults.host.as_str())),
                &vec![':'],
            ),
            &decimal(defaults.port as u64),
        );
        let r = cat(&r, &chars_of(self.path.as_str()));
        proof {
            assert(r@ =~= url_spec(defaults.scheme@, defaults.host@, defaults.port, self.path@));
        }
        text_of(r)
    }

    /// The query made of the prepared parameters.
    pub fn make_query(&self, defaults: &RequestDefaults) -> (r: String)
        ensures
            r@ == query_spec(self.prepared_parameters@, defaults.template@, defaults.joiner@, defaults.encode),
    {
        query_of(&self.prepared_parameters, &defaults.template, &defaults.joiner, defaults.encode)
    }

    /// Materialises the request once: values for the parameters, `{{random}}`
    /// filled, the query at the injection site and the headers it needs. A
    /// second call changes nothing.
    pub fn prepare(&mut self, defaults: &RequestDefaults, additional_param: Option<&String>, rng: &mut Randomizer)
        ensures
            prepare_post(*old(self), *final(self), *defaults, opt_string(additional_param)),
    {
        if self.prepared {
            return;
        }
        let ghost start = *self;
        self.prepared = true;
        let nr = pinned_parameters(&self.parameters);
        let pp = prepared_parameters_of(&self.parameters, additional_param, &nr, rng);
        self.non_random_parameters = nr;
        self.prepared_parameters = pp;
        let place = defaults.injection_place;
        let ghost custom = defaults.custom_headers@;
        let mut added: Vec<(String, String)> = Vec::new();
        if place != InjectionPlace::HeaderValue {
            added = filled_headers(&defaults.custom_headers, rng);
        }
        let path = fill_random(&defaults.path, rng);
        let body = fill_random(&defaults.body, rng);
        let q = self.make_query(defaults);
        let ghost qv = q@;
        let qc = chars_of(q.as_str());
        let m: Vec<char> = vec!['%', 's'];
        proof {
            assert(m@ =~= marker());
        }
        match place {
            InjectionPlace::Path => {
                self.path = text_of(replace_chars(&chars_of(path.as_str()), &m, &qc));
                self.body = body;
            },
            InjectionPlace::Body => {
                self.path = path;
                self.body = text_of(replace_chars(&chars_of(body.as_str()), &m, &qc));
                let ct = text_of(vec!['C', 'o', 'n', 't', 'e', 'n', 't', '-', 'T', 'y', 'p', 'e']);
                if !defaults.custom_headers.contains_key(ct.as_str()) {
                    let ghost filled = added@;
                    if defaults.is_json {
                        added.push((ct, text_of(vec!['a', 'p', 'p', 'l', 'i', 'c', 'a', 't', 'i', 'o', 'n', '/', 'j', 's', 'o', 'n'])));
                    } else {
                        added.push((ct, text_of(vec!['a', 'p', 'p', 'l', 'i', 'c', 'a', 't', 'i', 'o', 'n', '/', 'x', '-', 'w', 'w', 'w', '-', 'f', 'o', 'r', 'm', '-', 'u', 'r', 'l', 'e', 'n', 'c', 'o', 'd', 'e', 'd'])));
                    }
                    proof {
                        assert(added@.drop_last() =~= filled);
                    }
                }
            },
            InjectionPlace::HeaderValue => {
                self.path = path;
                self.body = body;
                added = injected_headers(&defaults.custom_headers, &qc, rng);
            },
            InjectionPlace::Headers => {
                self.path = path;
                self.body = body;
                let ghost filled = added@;
                let tokens = token_headers(&self.parameters, rng);
                extend_pairs(&mut added, &tokens);
                proof {
                    assert(added@.subrange(0, custom.len() as int) =~= filled);
                    assert(added@.subrange(custom.len() as int, added@.len() as int) =~= tokens@);
                }
            },
        }
        let ghost before = self.headers@;
        extend_pairs(&mut self.headers, &added);
        proof {
            assert(self.headers@.subrange(0, before.len() as int) =~= before);
            assert(self.headers@.subrange(before.len() as int, self.headers@.len() as int) =~= added@);
        }
    }

    /// The request as text: request line, host, the headers in ascending
    /// order, a blank line and the body. Prepares the request first.
    pub fn print(&mut self, defaults: &RequestDefaults, rng: &mut Randomizer) -> (r: String)
        ensures
            old(self).prepared ==> *final(self) == *old(self),
            !old(self).prepared ==> exists|extra: Seq<char>| prepared_as(*old(self), *final(self), *defaults, Some(extra)),
            exists|sorted: Seq<(String, String)>|
                sorted_copy(final(self).headers@, sorted) && r@ == request_text(*final(self), defaults.host@, sorted),
    {
        let extra = rng.random_line(5);
        self.prepare(defaults, Some(&extra), rng);
        let sorted = crate::bridge::sorted_pairs(&self.headers);
        let mut out = chars_of(self.method.as_str());
        out.push(' ');
        append_chars(&mut out, &chars_of(self.path.as_str()));
        append_chars(&mut out, &vec![' ', 'H', 'T', 'T', 'P', '/', 'x', '\n', 'H', 'o', 's', 't', ':', ' ']);
        append_chars(&mut out, &chars_of(defaults.host.as_str()));
        out.push('\n');
        append_chars(&mut out, &header_text(&sorted));
        out.push('\n');
        append_chars(&mut out, &chars_of(self.body.as_str()));
        proof {
            assert(out@ =~= request_text(*self, defaults.host@, sorted@));
            assert(sorted_copy(self.headers@, sorted@));
        }
        text_of(out)
    }
}

} // verus!
