//! The request template: the blueprint every probe is made from, and the
//! normalisation that puts exactly one `%s` marker at the injection site.
use vstd::prelude::*;
use crate::bridge::{chars_of, parse_url, string_of, url_parts};
use crate::headers::clone_pairs;
use crate::response::Response;
use crate::text::{cat, contains, contains_exec, decimal, decimal_spec, occurs_at};

verus! {

/// The syntax of the data that parameters are spliced into.
#[derive(Clone, Copy, Debug, PartialEq, Eq, Structural)]
pub enum DataType {
    Json,
    Urlencoded,
}

/// Where the candidate parameters go.
#[derive(Clone, Copy, Debug, PartialEq, Eq, Structural)]
pub enum InjectionPlace {
    Path,
    Body,
    Headers,
    HeaderValue,
}

/// Why a template could not be built.
#[derive(Clone, Copy, Debug, PartialEq, Eq, Structural)]
pub enum TemplateError {
    BadUrl,
    MissingHost,
    UnknownScheme,
}

/// `%s`, the marker that the query replaces.
pub open spec fn marker() -> Seq<char> {
    seq!['%', 's']
}

/// `"{k}": {v}`
pub open spec fn json_template() -> Seq<char> {
    seq!['"', '{', 'k', '}', '"', ':', ' ', '{', 'v', '}']
}

/// `{k}={v}`
pub open spec fn pair_template() -> Seq<char> {
    seq!['{', 'k', '}', '=', '{', 'v', '}']
}

/// Template, joiner, whether the data is JSON, and the data type when the
/// injection site is not among the headers.
pub open spec fn guess_spec(body: Seq<char>, place: InjectionPlace, dt: Option<DataType>) -> (
    Seq<char>,
    Seq<char>,
    bool,
    Option<DataType>,
) {
    match dt {
        Some(DataType::Json) => (json_template(), seq![',', ' '], true, Some(DataType::Json)),
        Some(DataType::Urlencoded) => (pair_template(), seq!['&'], false, Some(DataType::Urlencoded)),
        None => match place {
            InjectionPlace::Body | InjectionPlace::Path => if body.len() > 0 && body[0] == '{' {
                (json_template(), seq![',', ' '], true, Some(DataType::Json))
            } else {
                (pair_template(), seq!['&'], false, Some(DataType::Urlencoded))
            },
            InjectionPlace::HeaderValue => (pair_template(), seq![';'], false, None),
            InjectionPlace::Headers => (Seq::empty(), Seq::empty(), false, None),
        },
    }
}

/// Path and body once the marker stands at the injection site. A path that
/// already holds `?` gets `<joiner>%s` in front of it; a path parsed from a URL
/// never holds `?`, so templates built by `new` do not reach that case.
pub open spec fn fix_spec(
    path: Seq<char>,
    body: Seq<char>,
    joiner: Seq<char>,
    place: InjectionPlace,
    dt: DataType,
) -> (Seq<char>, Seq<char>) {
    match place {
        InjectionPlace::Body => if contains(body, marker()) {
            (path, body)
        } else if body.len() == 0 {
            match dt {
                DataType::Urlencoded => (path, marker()),
                DataType::Json => (path, seq!['{'] + marker() + seq!['}']),
            }
        } else {
            match dt {
                DataType::Urlencoded => (path, body + joiner + marker()),
                DataType::Json => (path, body.drop_last() + seq![',', ' '] + marker() + seq!['}']),
            }
        },
        InjectionPlace::Path => if contains(path, marker()) {
            (path, body)
        } else if contains(path, seq!['?']) {
            (joiner + marker() + path, body)
        } else if joiner == seq!['&'] {
            (path + seq!['?'] + marker(), body)
        } else {
            (path + marker(), body)
        },
        _ => (path, body),
    }
}

/// Path and body with the marker put in place, where the injection site is
/// not among the headers.
pub open spec fn normalized(
    path: Seq<char>,
    body: Seq<char>,
    joiner: Seq<char>,
    place: InjectionPlace,
    dt: Option<DataType>,
) -> (Seq<char>, Seq<char>) {
    match dt {
        Some(data_type) => fix_spec(path, body, joiner, place, data_type),
        None => (path, body),
    }
}

proof fn lemma_marker_at(s: Seq<char>, i: int)
    requires
        0 <= i,
        i + 2 <= s.len(),
        s[i] == '%',
        s[i + 1] == 's',
    ensures
        contains(s, marker()),
{
    assert(s.subrange(i, i + 2) =~= marker());
    assert(occurs_at(s, i, marker()));
}

/// Putting the marker in place a second time changes nothing.
pub proof fn normalization_is_idempotent(
    path: Seq<char>,
    body: Seq<char>,
    joiner: Seq<char>,
    place: InjectionPlace,
    dt: DataType,
)
    ensures
        fix_spec(fix_spec(path, body, joiner, place, dt).0, fix_spec(path, body, joiner, place, dt).1, joiner, place, dt)
            == fix_spec(path, body, joiner, place, dt),
{
    let r = fix_spec(path, body, joiner, place, dt);
    match place {
        InjectionPlace::Body => {
            if !contains(body, marker()) {
                let b = r.1;
                if body.len() == 0 {
                    match dt {
                        DataType::Urlencoded => lemma_marker_at(b, 0),
                        DataType::Json => lemma_marker_at(b, 1),
                    }
                } else {
                    match dt {
                        DataType::Urlencoded => lemma_marker_at(b, b.len() - 2),
                        DataType::Json => lemma_marker_at(b, b.len() - 3),
                    }
                }
            }
        },
        InjectionPlace::Path => {
            if !contains(path, marker()) {
                let p = r.0;
                if contains(path, seq!['?']) {
                    lemma_marker_at(p, joiner.len() as int);
                } else {
                    lemma_marker_at(p, p.len() - 2);
                }
            }
        },
        _ => {},
    }
}

/// A template built from a URL gives back that URL's scheme, host and port,
/// with the path and body normalised, and the other inputs as they were.
pub proof fn template_round_trip(
    d: RequestDefaults,
    method: Seq<char>,
    scheme: Seq<char>,
    host: Seq<char>,
    port: u16,
    path: Seq<char>,
    headers: Seq<(String, String)>,
    delay: u64,
    template: Option<Seq<char>>,
    joiner: Option<Seq<char>>,
    encode: bool,
    dt: Option<DataType>,
    place: InjectionPlace,
    body: Seq<char>,
)
    requires
        built_from(d, method, scheme, host, port, path, headers, delay, template, joiner, encode, dt, place, body),
    ensures
        ({
            let g = guess_spec(body, place, dt);
            let j = match joiner {
                Some(j) => j,
                None => g.1,
            };
            let pb = normalized(path, body, j, place, g.3);
            &&& d.url_view() == url_spec(scheme, host, port, pb.0)
            &&& d.body@ == pb.1
            &&& d.method@ == method
            &&& d.custom_headers@ == headers
            &&& d.delay == delay
            &&& d.encode == encode
            &&& d.injection_place == place
            &&& d.joiner@ == j
        }),
{
}

/// `scheme://host:port<path>`, the port always written out.
pub open spec fn url_spec(scheme: Seq<char>, host: Seq<char>, port: u16, path: Seq<char>) -> Seq<
    char,
> {
    scheme + seq![':', '/', '/'] + host + seq![':'] + decimal_spec(port as nat) + path
}

pub open spec fn opt_view(o: Option<&str>) -> Option<Seq<char>> {
    match o {
        Some(s) => Some(s@),
        None => None,
    }
}

/// An immutable blueprint of the requests sent during one run.
#[derive(Clone, Debug)]
pub struct RequestDefaults {
    pub method: String,
    pub scheme: String,
    pub path: String,
    pub host: String,
    pub port: u16,
    pub custom_headers: Vec<(String, String)>,
    /// Delay before each request, in milliseconds.
    pub delay: u64,
    pub initial_response: Option<Response>,
    pub template: String,
    pub joiner: String,
    pub encode: bool,
    pub is_json: bool,
    pub body: String,
    pub injection_place: InjectionPlace,
    pub amount_of_reflections: usize,
}

/// `d` is the template built from these inputs, with the URL split into
/// `scheme`, `host`, `port` and `path`.
pub open spec fn built_from(
    d: RequestDefaults,
    method: Seq<char>,
    scheme: Seq<char>,
    host: Seq<char>,
    port: u16,
    path: Seq<char>,
    headers: Seq<(String, String)>,
    delay: u64,
    template: Option<Seq<char>>,
    joiner: Option<Seq<char>>,
    encode: bool,
    dt: Option<DataType>,
    place: InjectionPlace,
    body: Seq<char>,
) -> bool {
    let g = guess_spec(body, place, dt);
    let t = match template {
        Some(t) => t,
        None => g.0,
    };
    let j = match joiner {
        Some(j) => j,
        None => g.1,
    };
    let pb = normalized(path, body, j, place, g.3);
    &&& d.method@ == method
    &&& d.scheme@ == scheme
    &&& d.host@ == host
    &&& d.port == port
    &&& d.path@ == pb.0
    &&& d.body@ == pb.1
    &&& d.custom_headers@ == headers
    &&& d.delay == delay
    &&& d.template@ == t
    &&& d.joiner@ == j
    &&& d.encode == encode
    &&& d.is_json == g.2
    &&& d.injection_place == place
    &&& d.initial_response is None
    &&& d.amount_of_reflections == 0
}

/// What building a template from these inputs gives: the URL error, if any,
/// else a template built from them.
pub open spec fn new_outcome(
    r: Result<RequestDefaults, TemplateError>,
    method: Seq<char>,
    url: Seq<char>,
    headers: Seq<(String, String)>,
    delay: u64,
    template: Option<Seq<char>>,
    joiner: Option<Seq<char>>,
    encode: bool,
    dt: Option<DataType>,
    place: InjectionPlace,
    body: Seq<char>,
) -> bool {
    match url_parts(url) {
        None => r == Err::<RequestDefaults, TemplateError>(TemplateError::BadUrl),
        Some((scheme, host, port, path)) => match host {
            None => r == Err::<RequestDefaults, TemplateError>(TemplateError::MissingHost),
            Some(h) => match port {
                None => r == Err::<RequestDefaults, TemplateError>(TemplateError::UnknownScheme),
                Some(p) => r matches Ok(d) && built_from(
                    d,
                    method,
                    scheme,
                    h,
                    p,
                    path,
                    headers,
                    delay,
                    template,
                    joiner,
                    encode,
                    dt,
                    place,
                    body,
                ),
            },
        },
    }
}

fn text_of(v: Vec<char>) -> (r: String)
    ensures
        r@ == v@,
{
    string_of(&v)
}

impl Default for RequestDefaults {
    /// `GET https://example.com:443/`, query injection with `{k}={v}` and `&`.
    fn default() -> (r: Self)
        ensures
            r.method@ == seq!['G', 'E', 'T'],
            r.scheme@ == seq!['h', 't', 't', 'p', 's'],
            r.path@ == seq!['/'],
            r.host@ == seq!['e', 'x', 'a', 'm', 'p', 'l', 'e', '.', 'c', 'o', 'm'],
            r.port == 443,
            r.custom_headers@.len() == 0,
            r.delay == 0,
            r.initial_response is None,
            r.template@ == pair_template(),
            r.joiner@ == seq!['&'],
            !r.is_json,
            !r.encode,
            r.body@.len() == 0,
            r.injection_place == InjectionPlace::Path,
            r.amount_of_reflections == 0,
    {
        RequestDefaults {
            method: text_of(vec!['G', 'E', 'T']),
            scheme: text_of(vec!['h', 't', 't', 'p', 's']),
            path: text_of(vec!['/']),
            host: text_of(vec!['e', 'x', 'a', 'm', 'p', 'l', 'e', '.', 'c', 'o', 'm']),
            custom_headers: Vec::new(),
            port: 443,
            delay: 0,
            initial_response: None,
            template: text_of(vec!['{', 'k', '}', '=', '{', 'v', '}']),
            joiner: text_of(vec!['&']),
            is_json: false,
            encode: false,
            body: text_of(Vec::new()),
            injection_place: InjectionPlace::Path,
            amount_of_reflections: 0,
        }
    }
}

impl RequestDefaults {
    pub open spec fn url_view(&self) -> Seq<char> {
        url_spec(self.scheme@, self.host@, self.port, self.path@)
    }

    /// Builds a template from a URL and the run's settings; the template and
    /// joiner fall back to what the data format implies.
    pub fn new(
        method: &str,
        url: &str,
        custom_headers: Vec<(String, String)>,
        delay: u64,
        template: Option<&str>,
        joiner: Option<&str>,
        encode: bool,
        data_type: Option<DataType>,
        injection_place: InjectionPlace,
        body: &str,
    ) -> (r: Result<Self, TemplateError>)
        ensures
            new_outcome(
                r,
                method@,
                url@,
                custom_headers@,
                delay,
                opt_view(template),
                opt_view(joiner),
                encode,
                data_type,
                injection_place,
                body@,
            ),
    {
        let (guessed_template, guessed_joiner, is_json, data_type) = Self::guess_data_format(
            body,
            injection_place,
            data_type,
        );
        let template = match template {
            Some(t) => t.to_owned(),
            None => guessed_template,
        };
        let joiner = match joiner {
            Some(j) => j.to_owned(),
            None => guessed_joiner,
        };
        let parts = match parse_url(url) {
            Some(p) => p,
            None => {
                return Err(TemplateError::BadUrl);
            },
        };
        let (scheme, host, port, url_path) = parts;
        let (path, body) = match data_type {
            Some(dt) => Self::fix_path_and_body(
                url_path.as_str(),
                body,
                joiner.as_str(),
                injection_place,
                dt,
            ),
            None => (url_path, body.to_owned()),
        };
        let host = match host {
            Some(h) => h,
            None => {
                return Err(TemplateError::MissingHost);
            },
        };
        let port = match port {
            Some(p) => p,
            None => {
                return Err(TemplateError::UnknownScheme);
            },
        };
        Ok(RequestDefaults {
            method: method.to_owned(),
            scheme,
            path,
            host,
            port,
            custom_headers,
            delay,
            initial_response: None,
            template,
            joiner,
            encode,
            is_json,
            body,
            injection_place,
            amount_of_reflections: 0,
        })
    }

    /// Template, joiner, whether the data is JSON, and the data type when the
    /// injection site is not among the headers. Without an explicit data type,
    /// a body (for body or path injection) that begins with `{` means JSON.
    pub fn guess_data_format(body: &str, injection_place: InjectionPlace, data_type: Option<DataType>) -> (r: (
        String,
        String,
        bool,
        Option<DataType>,
    ))
        ensures
            (r.0@, r.1@, r.2, r.3) == guess_spec(body@, injection_place, data_type),
    {
        let json = text_of(vec!['"', '{', 'k', '}', '"', ':', ' ', '{', 'v', '}']);
        let pair = text_of(vec!['{', 'k', '}', '=', '{', 'v', '}']);
        let comma = text_of(vec![',', ' ']);
        let amp = text_of(vec!['&']);
        match data_type {
            Some(DataType::Json) => (json, comma, true, Some(DataType::Json)),
            Some(DataType::Urlencoded) => (pair, amp, false, Some(DataType::Urlencoded)),
            None => match injection_place {
                InjectionPlace::Body | InjectionPlace::Path => {
                    let chars = chars_of(body);
                    if chars.len() > 0 && chars[0] == '{' {
                        (json, comma, true, Some(DataType::Json))
                    } else {
                        (pair, amp, false, Some(DataType::Urlencoded))
                    }
                },
                InjectionPlace::HeaderValue => (pair, text_of(vec![';']), false, None),
                InjectionPlace::Headers => (text_of(Vec::new()), text_of(Vec::new()), false, None),
            },
        }
    }

    /// Puts the `%s` marker at the injection site where it is not there yet.
    pub fn fix_path_and_body(
        path: &str,
        body: &str,
        joiner: &str,
        injection_place: InjectionPlace,
        data_type: DataType,
    ) -> (r: (String, String))
        ensures
            (r.0@, r.1@) == fix_spec(path@, body@, joiner@, injection_place, data_type),
    {
        let path_c = chars_of(path);
        let body_c = chars_of(body);
        let joiner_c = chars_of(joiner);
        let mark: Vec<char> = vec!['%', 's'];
        proof {
            assert(mark@ =~= marker());
        }
        match injection_place {
            InjectionPlace::Body => {
                if contains_exec(&body_c, &mark) {
                    (text_of(path_c), text_of(body_c))
                } else if body_c.len() == 0 {
                    match data_type {
                        DataType::Urlencoded => (text_of(path_c), text_of(mark)),
                        DataType::Json => {
                            let r = vec!['{', '%', 's', '}'];
                            proof {
                                assert(r@ =~= seq!['{'] + marker() + seq!['}']);
                            }
                            (text_of(path_c), text_of(r))
                        },
                    }
                } else {
                    match data_type {
                        DataType::Urlencoded => {
                            let r = cat(&cat(&body_c, &joiner_c), &mark);
                            (text_of(path_c), text_of(r))
                        },
                        DataType::Json => {
                            let mut b = body_c.clone();
                            b.pop();
                            let tail = vec![',', ' ', '%', 's', '}'];
                            let r = cat(&b, &tail);
                            proof {
                                assert(b@ =~= body@.drop_last());
                                assert(r@ =~= body@.drop_last() + seq![',', ' '] + marker() + seq!['}']);
                            }
                            (text_of(path_c), text_of(r))
                        },
                    }
                }
            },
            InjectionPlace::Path => {
                let q: Vec<char> = vec!['?'];
                let a: Vec<char> = vec!['&'];
                proof {
                    assert(q@ =~= seq!['?']);
                    assert(a@ =~= seq!['&']);
                }
                if contains_exec(&path_c, &mark) {
                    (text_of(path_c), text_of(body_c))
                } else if contains_exec(&path_c, &q) {
                    let r = cat(&cat(&joiner_c, &mark), &path_c);
                    (text_of(r), text_of(body_c))
                } else if joiner_c.len() == 1 && joiner_c[0] == '&' {
                    proof {
                        assert(joiner@ =~= seq!['&']);
                    }
                    let r = cat(&cat(&path_c, &q), &mark);
                    (text_of(r), text_of(body_c))
                } else {
                    proof {
                        if joiner@ == seq!['&'] {
                            assert(joiner_c@[0] == '&');
                        }
                    }
                    let r = cat(&path_c, &mark);
                    (text_of(r), text_of(body_c))
                }
            },
            _ => (text_of(path_c), text_of(body_c)),
        }
    }

    /// `scheme://host:port<path>`.
    pub fn url(&self) -> (r: String)
        ensures
            r@ == self.url_view(),
    {
        let sep = vec![':', '/', '/'];
        let colon = vec![':'];
        let r = cat(
            &cat(&cat(&cat(&chars_of(self.scheme.as_str()), &sep), &chars_of(self.host.as_str())), &colon),
            &decimal(self.port as u64),
        );
        let r = cat(&r, &chars_of(self.path.as_str()));
        proof {
            assert(r@ =~= self.url_view());
        }
        text_of(r)
    }

    /// Builds the template again from its own URL, method, headers, delay and
    /// body, with the given data type, template and joiner.
    pub fn recreate(&self, data_type: Option<DataType>, template: Option<&str>, joiner: Option<&str>) -> (r:
        Result<Self, TemplateError>)
        ensures
            new_outcome(
                r,
                self.method@,
                self.url_view(),
                self.custom_headers@,
                self.delay,
                opt_view(template),
                opt_view(joiner),
                self.encode,
                data_type,
                self.injection_place,
                self.body@,
            ),
    {
        let url = self.url();
        RequestDefaults::new(
            self.method.as_str(),
            url.as_str(),
            clone_pairs(&self.custom_headers),
            self.delay,
            template,
            joiner,
            self.encode,
            data_type,
            self.injection_place,
            self.body.as_str(),
        )
    }
}

} // verus!
