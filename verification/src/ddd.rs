//! The records a DDD lookup produces, their mathematical views, and the
//! mapping from an HTTP status code and response body to the caller-visible
//! result.

use crate::json::enc_int;
use crate::json::enc_int_ex;
use crate::json::lemma_scan_int_adv;
use crate::json::lemma_scan_string_adv;
use crate::json::lemma_skip_value_adv;
use crate::json::quote_str_ex;
use crate::json::quoted;
use crate::json::scan_int;
use crate::json::scan_int_ex;
use crate::json::scan_string;
use crate::json::scan_string_ex;
use crate::json::skip_value;
use crate::json::skip_value_ex;
use crate::json::skip_ws;
use crate::json::skip_ws_ex;
use crate::json::step;
use vstd::prelude::*;

verus! {

/// A successful lookup: the state a code belongs to and the cities it covers.
#[derive(Debug)]
pub struct Ddd {
    pub state: String,
    pub cities: Vec<String>,
    pub nome: Option<String>,
    pub regiao: Option<Regiao>,
}

/// One of Brazil's macro-regions, nested inside a successful lookup.
#[derive(Debug)]
pub struct Regiao {
    pub id: i32,
    pub sigla: String,
    pub nome: String,
}

/// The structured error body the upstream API returns on failure.
#[derive(Debug, Clone)]
pub struct DddError {
    pub message: String,
    pub name: String,
    pub kind: String,
}

/// Distinguishes a well-formed API error body from any other failure shape.
#[derive(Debug)]
pub enum Errored {
    NotFound(DddError),
    Unexpected,
}

/// A non-success outcome: the HTTP status, a message, and the error shape.
#[derive(Debug)]
pub struct UnexpectedError {
    pub code: u16,
    pub message: String,
    pub error: Errored,
}

/// Mathematical view of `Regiao`.
pub struct RegiaoV {
    pub id: int,
    pub sigla: Seq<char>,
    pub nome: Seq<char>,
}

/// Mathematical view of `Ddd`.
pub struct DddV {
    pub state: Seq<char>,
    pub cities: Seq<Seq<char>>,
    pub nome: Option<Seq<char>>,
    pub regiao: Option<RegiaoV>,
}

/// Mathematical view of `DddError`.
pub struct DddErrorV {
    pub message: Seq<char>,
    pub name: Seq<char>,
    pub kind: Seq<char>,
}

/// Mathematical view of `Errored`.
pub enum ErroredV {
    NotFound(DddErrorV),
    Unexpected,
}

/// Mathematical view of `UnexpectedError`.
pub struct UnexpectedErrorV {
    pub code: u16,
    pub message: Seq<char>,
    pub error: ErroredV,
}

impl View for Regiao {
    type V = RegiaoV;

    open spec fn view(&self) -> RegiaoV {
        RegiaoV { id: self.id as int, sigla: self.sigla@, nome: self.nome@ }
    }
}

impl View for Ddd {
    type V = DddV;

    open spec fn view(&self) -> DddV {
        DddV {
            state: self.state@,
            cities: self.cities.deep_view(),
            nome: self.nome.deep_view(),
            regiao: match self.regiao {
                Some(r) => Some(r@),
                None => None,
            },
        }
    }
}

impl View for DddError {
    type V = DddErrorV;

    open spec fn view(&self) -> DddErrorV {
        DddErrorV { message: self.message@, name: self.name@, kind: self.kind@ }
    }
}

impl View for Errored {
    type V = ErroredV;

    open spec fn view(&self) -> ErroredV {
        match self {
            Errored::NotFound(e) => ErroredV::NotFound(e@),
            Errored::Unexpected => ErroredV::Unexpected,
        }
    }
}

impl View for UnexpectedError {
    type V = UnexpectedErrorV;

    open spec fn view(&self) -> UnexpectedErrorV {
        UnexpectedErrorV { code: self.code, message: self.message@, error: self.error@ }
    }
}

impl DeepView for Regiao {
    type V = RegiaoV;

    open spec fn deep_view(&self) -> RegiaoV {
        self.view()
    }
}

/// True when the literal `null` stands at `i`.
pub open spec fn has_null(s: Seq<char>, i: int) -> bool {
    0 <= i && i + 4 <= s.len() && s[i] == 'n' && s[i + 1] == 'u' && s[i + 2] == 'l' && s[i + 3]
        == 'l'
}

/// Scans the members of the error object from the first key on, carrying
/// the fields seen so far. Succeeds at the closing brace once `message`,
/// `name` and `type` have each been seen exactly once; members under any
/// other key are ignored.
pub open spec fn scan_err_members(
    s: Seq<char>,
    i: int,
    message: Option<Seq<char>>,
    name: Option<Seq<char>>,
    kind: Option<Seq<char>>,
) -> Option<(DddErrorV, int)>
    decreases s.len() - i,
{
    if i < 0 || i >= s.len() || s[i] != '"' {
        None
    } else {
        match scan_string(s, i + 1) {
            None => None,
            Some(kp) => {
                let key = kp.0;
                let b = skip_ws(s, kp.1);
                if b >= s.len() || s[b] != ':' {
                    None
                } else {
                    let c = skip_ws(s, b + 1);
                    let upd: Option<(Option<Seq<char>>, Option<Seq<char>>, Option<Seq<char>>, int)> =
                        if key == "message"@ || key == "name"@ || key == "type"@ {
                        if c >= s.len() || s[c] != '"' {
                            None
                        } else {
                            match scan_string(s, c + 1) {
                                None => None,
                                Some(vp) => if key == "message"@ {
                                    if message is Some {
                                        None
                                    } else {
                                        Some((Some(vp.0), name, kind, vp.1))
                                    }
                                } else if key == "name"@ {
                                    if name is Some {
                                        None
                                    } else {
                                        Some((message, Some(vp.0), kind, vp.1))
                                    }
                                } else {
                                    if kind is Some {
                                        None
                                    } else {
                                        Some((message, name, Some(vp.0), vp.1))
                                    }
                                },
                            }
                        }
                    } else {
                        match skip_value(s, c) {
                            None => None,
                            Some(j) => Some((message, name, kind, j)),
                        }
                    };
                    match upd {
                        None => None,
                        Some(u) => {
                            let e = skip_ws(s, u.3);
                            if e >= s.len() {
                                None
                            } else if s[e] == ',' {
                                scan_err_members(s, step(s, i, skip_ws(s, e + 1)), u.0, u.1, u.2)
                            } else if s[e] == '}' {
                                if u.0 is Some && u.1 is Some && u.2 is Some {
                                    Some(
                                        (
                                            DddErrorV {
                                                message: u.0.unwrap(),
                                                name: u.1.unwrap(),
                                                kind: u.2.unwrap(),
                                            },
                                            e + 1,
                                        ),
                                    )
                                } else {
                                    None
                                }
                            } else {
                                None
                            }
                        },
                    }
                }
            },
        }
    }
}

/// What decoding the body of a failed request yields: the error record,
/// when the whole text is one JSON object with string members `message`,
/// `name` and `type`, unknown members ignored.
pub open spec fn spec_decode_err(s: Seq<char>) -> Option<DddErrorV> {
    let i = skip_ws(s, 0);
    if i >= s.len() || s[i] != '{' {
        None
    } else {
        match scan_err_members(s, skip_ws(s, i + 1), None, None, None) {
            None => None,
            Some(p) => if skip_ws(s, p.1) == s.len() {
                Some(p.0)
            } else {
                None
            },
        }
    }
}

/// Relates a spec scan yielding an error record to its executable mirror.
pub open spec fn err_res_matches(
    g: Option<(DddErrorV, int)>,
    r: Option<(DddError, usize)>,
) -> bool {
    match g {
        Some(gp) => r matches Some(rp) && rp.0@ == gp.0 && rp.1 as int == gp.1,
        None => r is None,
    }
}

/// Executable mirror of `scan_err_members`.
fn scan_err_members_ex(
    s: &str,
    i: usize,
    message: Option<String>,
    name: Option<String>,
    kind: Option<String>,
) -> (r: Option<(DddError, usize)>)
    requires
        i <= s@.len(),
    ensures
        err_res_matches(
            scan_err_members(s@, i as int, message.deep_view(), name.deep_view(), kind.deep_view()),
            r,
        ),
        r matches Some(p) ==> p.1 <= s@.len(),
    decreases s@.len() - i,
{
    let n = s.unicode_len();
    if i >= n || s.get_char(i) != '"' {
        return None;
    }
    proof {
        lemma_scan_string_adv(s@, i + 1);
    }
    let (key, a) = match scan_string_ex(s, i + 1) {
        None => {
            return None;
        },
        Some(p) => p,
    };
    let b = skip_ws_ex(s, a);
    if b >= n || s.get_char(b) != ':' {
        return None;
    }
    let c = skip_ws_ex(s, b + 1);
    let is_message = key == String::from_str("message");
    let is_name = key == String::from_str("name");
    let is_kind = key == String::from_str("type");
    let upd: Option<(Option<String>, Option<String>, Option<String>, usize)> = if is_message
        || is_name || is_kind {
        if c >= n || s.get_char(c) != '"' {
            None
        } else {
            proof {
                lemma_scan_string_adv(s@, c + 1);
            }
            match scan_string_ex(s, c + 1) {
                None => None,
                Some((v, d0)) => if is_message {
                    if message.is_some() {
                        None
                    } else {
                        Some((Some(v), name, kind, d0))
                    }
                } else if is_name {
                    if name.is_some() {
                        None
                    } else {
                        Some((message, Some(v), kind, d0))
                    }
                } else {
                    if kind.is_some() {
                        None
                    } else {
                        Some((message, name, Some(v), d0))
                    }
                },
            }
        }
    } else {
        proof {
            lemma_skip_value_adv(s@, c as int);
        }
        match skip_value_ex(s, c) {
            None => None,
            Some(j) => Some((message, name, kind, j)),
        }
    };
    match upd {
        None => None,
        Some((m2, n2, k2, v_end)) => {
            let e = skip_ws_ex(s, v_end);
            if e >= n {
                None
            } else if s.get_char(e) == ',' {
                let next = skip_ws_ex(s, e + 1);
                proof {
                    assert(step(s@, i as int, next as int) == next as int);
                }
                scan_err_members_ex(s, next, m2, n2, k2)
            } else if s.get_char(e) == '}' {
                match (m2, n2, k2) {
                    (Some(mm), Some(nn), Some(kk)) => Some(
                        (DddError { message: mm, name: nn, kind: kk }, e + 1),
                    ),
                    _ => None,
                }
            } else {
                None
            }
        },
    }
}

/// Scans the elements of the city array from the first element on; every
/// element must be a string. Entered with whitespace already skipped.
pub open spec fn scan_cities_items(s: Seq<char>, i: int, acc: Seq<Seq<char>>) -> Option<
    (Seq<Seq<char>>, int),
>
    decreases s.len() - i,
{
    if i < 0 || i >= s.len() || s[i] != '"' {
        None
    } else {
        match scan_string(s, i + 1) {
            None => None,
            Some(vp) => {
                let e = skip_ws(s, vp.1);
                if e >= s.len() {
                    None
                } else if s[e] == ',' {
                    scan_cities_items(s, step(s, i, skip_ws(s, e + 1)), acc.push(vp.0))
                } else if s[e] == ']' {
                    Some((acc.push(vp.0), e + 1))
                } else {
                    None
                }
            },
        }
    }
}

/// Scans the members of the region object from the first key on. Succeeds
/// at the closing brace once `id` (an integer), `sigla` and `nome` (strings)
/// have each been seen exactly once; other members are ignored.
pub open spec fn scan_regiao_members(
    s: Seq<char>,
    i: int,
    id: Option<int>,
    sigla: Option<Seq<char>>,
    nome: Option<Seq<char>>,
) -> Option<(RegiaoV, int)>
    decreases s.len() - i,
{
    if i < 0 || i >= s.len() || s[i] != '"' {
        None
    } else {
        match scan_string(s, i + 1) {
            None => None,
            Some(kp) => {
                let key = kp.0;
                let b = skip_ws(s, kp.1);
                if b >= s.len() || s[b] != ':' {
                    None
                } else {
                    let c = skip_ws(s, b + 1);
                    let upd: Option<(Option<int>, Option<Seq<char>>, Option<Seq<char>>, int)> = if key
                        == "id"@ {
                        if id is Some {
                            None
                        } else {
                            match scan_int(s, c) {
                                None => None,
                                Some(vp) => Some((Some(vp.0), sigla, nome, vp.1)),
                            }
                        }
                    } else if key == "sigla"@ || key == "nome"@ {
                        if c >= s.len() || s[c] != '"' {
                            None
                        } else {
                            match scan_string(s, c + 1) {
                                None => None,
                                Some(vp) => if key == "sigla"@ {
                                    if sigla is Some {
                                        None
                                    } else {
                                        Some((id, Some(vp.0), nome, vp.1))
                                    }
                                } else {
                                    if nome is Some {
                                        None
                                    } else {
                                        Some((id, sigla, Some(vp.0), vp.1))
                                    }
                                },
                            }
                        }
                    } else {
                        match skip_value(s, c) {
                            None => None,
                            Some(j) => Some((id, sigla, nome, j)),
                        }
                    };
                    match upd {
                        None => None,
                        Some(u) => {
                            let e = skip_ws(s, u.3);
                            if e >= s.len() {
                                None
                            } else if s[e] == ',' {
                                scan_regiao_members(s, step(s, i, skip_ws(s, e + 1)), u.0, u.1, u.2)
                            } else if s[e] == '}' {
                                if u.0 is Some && u.1 is Some && u.2 is Some {
                                    Some(
                                        (
                                            RegiaoV {
                                                id: u.0.unwrap(),
                                                sigla: u.1.unwrap(),
                                                nome: u.2.unwrap(),
                                            },
                                            e + 1,
                                        ),
                                    )
                                } else {
                                    None
                                }
                            } else {
                                None
                            }
                        },
                    }
                }
            },
        }
    }
}

/// Scans the members of the lookup object from the first key on. Succeeds
/// at the closing brace once `state` (a string) and `cities` (an array of
/// strings) have been seen exactly once; `nome` (a string or `null`) and
/// `regiao` (a region object or `null`) may be absent; other members are
/// ignored.
pub open spec fn scan_ddd_members(
    s: Seq<char>,
    i: int,
    state: Option<Seq<char>>,
    cities: Option<Seq<Seq<char>>>,
    nome: Option<Option<Seq<char>>>,
    regiao: Option<Option<RegiaoV>>,
) -> Option<(DddV, int)>
    decreases s.len() - i,
{
    if i < 0 || i >= s.len() || s[i] != '"' {
        None
    } else {
        match scan_string(s, i + 1) {
            None => None,
            Some(kp) => {
                let key = kp.0;
                let b = skip_ws(s, kp.1);
                if b >= s.len() || s[b] != ':' {
                    None
                } else {
                    let c = skip_ws(s, b + 1);
                    let upd: Option<
                        (
                            Option<Seq<char>>,
                            Option<Seq<Seq<char>>>,
                            Option<Option<Seq<char>>>,
                            Option<Option<RegiaoV>>,
                            int,
                        ),
                    > = if key == "state"@ {
                        if state is Some || c >= s.len() || s[c] != '"' {
                            None
                        } else {
                            match scan_string(s, c + 1) {
                                None => None,
                                Some(vp) => Some((Some(vp.0), cities, nome, regiao, vp.1)),
                            }
                        }
                    } else if key == "cities"@ {
                        if cities is Some || c >= s.len() || s[c] != '[' {
                            None
                        } else {
                            let e0 = skip_ws(s, c + 1);
                            if e0 < s.len() && s[e0] == ']' {
                                Some((state, Some(Seq::empty()), nome, regiao, e0 + 1))
                            } else {
                                match scan_cities_items(s, e0, Seq::empty()) {
                                    None => None,
                                    Some(cp) => Some((state, Some(cp.0), nome, regiao, cp.1)),
                                }
                            }
                        }
                    } else if key == "nome"@ {
                        if nome is Some {
                            None
                        } else if has_null(s, c) {
                            Some((state, cities, Some(None), regiao, c + 4))
                        } else if c < s.len() && s[c] == '"' {
                            match scan_string(s, c + 1) {
                                None => None,
                                Some(vp) => Some((state, cities, Some(Some(vp.0)), regiao, vp.1)),
                            }
                        } else {
                            None
                        }
                    } else if key == "regiao"@ {
                        if regiao is Some {
                            None
                        } else if has_null(s, c) {
                            Some((state, cities, nome, Some(None), c + 4))
                        } else if c < s.len() && s[c] == '{' {
                            match scan_regiao_members(s, skip_ws(s, c + 1), None, None, None) {
                                None => None,
                                Some(rp) => Some((state, cities, nome, Some(Some(rp.0)), rp.1)),
                            }
                        } else {
                            None
                        }
                    } else {
                        match skip_value(s, c) {
                            None => None,
                            Some(j) => Some((state, cities, nome, regiao, j)),
                        }
                    };
                    match upd {
                        None => None,
                        Some(u) => {
                            let e = skip_ws(s, u.4);
                            if e >= s.len() {
                                None
                            } else if s[e] == ',' {
                                scan_ddd_members(
                                    s,
                                    step(s, i, skip_ws(s, e + 1)),
                                    u.0,
                                    u.1,
                                    u.2,
                                    u.3,
                                )
                            } else if s[e] == '}' {
                                if u.0 is Some && u.1 is Some {
                                    Some(
                                        (
                                            DddV {
                                                state: u.0.unwrap(),
                                                cities: u.1.unwrap(),
                                                nome: if u.2 is Some {
                                                    u.2.unwrap()
                                                } else {
                                                    None
                                                },
                                                regiao: if u.3 is Some {
                                                    u.3.unwrap()
                                                } else {
                                                    None
                                                },
                                            },
                                            e + 1,
                                        ),
                                    )
                                } else {
                                    None
                                }
                            } else {
                                None
                            }
                        },
                    }
                }
            },
        }
    }
}

/// What decoding the body of a successful request yields: the lookup
/// record, when the whole text is one JSON object of the lookup schema.
pub open spec fn spec_decode_ddd(s: Seq<char>) -> Option<DddV> {
    let i = skip_ws(s, 0);
    if i >= s.len() || s[i] != '{' {
        None
    } else {
        match scan_ddd_members(s, skip_ws(s, i + 1), None, None, None, None) {
            None => None,
            Some(p) => if skip_ws(s, p.1) == s.len() {
                Some(p.0)
            } else {
                None
            },
        }
    }
}

/// Spec view of an accumulated optional integer field.
pub open spec fn opt_i32_view(o: Option<i32>) -> Option<int> {
    match o {
        Some(v) => Some(v as int),
        None => None,
    }
}

/// Spec view of an accumulated optional region field.
pub open spec fn opt_opt_regiao_view(o: Option<Option<Regiao>>) -> Option<Option<RegiaoV>> {
    match o {
        Some(Some(r)) => Some(Some(r@)),
        Some(None) => Some(None),
        None => None,
    }
}

/// Relates a spec scan yielding a city list to its executable mirror.
pub open spec fn cities_res_matches(
    g: Option<(Seq<Seq<char>>, int)>,
    r: Option<(Vec<String>, usize)>,
) -> bool {
    match g {
        Some(gp) => r matches Some(rp) && rp.0.deep_view() == gp.0 && rp.1 as int == gp.1,
        None => r is None,
    }
}

/// Relates a spec scan yielding a region record to its executable mirror.
pub open spec fn regiao_res_matches(
    g: Option<(RegiaoV, int)>,
    r: Option<(Regiao, usize)>,
) -> bool {
    match g {
        Some(gp) => r matches Some(rp) && rp.0@ == gp.0 && rp.1 as int == gp.1,
        None => r is None,
    }
}

/// Relates a spec scan yielding a lookup record to its executable mirror.
pub open spec fn ddd_res_matches(g: Option<(DddV, int)>, r: Option<(Ddd, usize)>) -> bool {
    match g {
        Some(gp) => r matches Some(rp) && rp.0@ == gp.0 && rp.1 as int == gp.1,
        None => r is None,
    }
}

fn has_null_ex(s: &str, i: usize) -> (r: bool)
    requires
        i <= s@.len(),
    ensures
        r == has_null(s@, i as int),
{
    let n = s.unicode_len();
    if n - i >= 4 {
        s.get_char(i) == 'n' && s.get_char(i + 1) == 'u' && s.get_char(i + 2) == 'l' && s.get_char(
            i + 3,
        ) == 'l'
    } else {
        false
    }
}

/// Executable mirror of `scan_cities_items`.
fn scan_cities_items_ex(s: &str, i: usize, acc: Vec<String>) -> (r: Option<(Vec<String>, usize)>)
    requires
        i <= s@.len(),
    ensures
        cities_res_matches(scan_cities_items(s@, i as int, acc.deep_view()), r),
        r matches Some(p) ==> i < p.1 <= s@.len(),
    decreases s@.len() - i,
{
    let n = s.unicode_len();
    if i >= n || s.get_char(i) != '"' {
        return None;
    }
    proof {
        lemma_scan_string_adv(s@, i + 1);
    }
    match scan_string_ex(s, i + 1) {
        None => None,
        Some((v, a)) => {
            let e = skip_ws_ex(s, a);
            if e >= n {
                None
            } else if s.get_char(e) == ',' {
                let next = skip_ws_ex(s, e + 1);
                let ghost acc0 = acc.deep_view();
                let ghost vv = v@;
                let mut acc2 = acc;
                acc2.push(v);
                proof {
                    assert(step(s@, i as int, next as int) == next as int);
                    assert(acc2.deep_view() =~~= acc0.push(vv));
                }
                scan_cities_items_ex(s, next, acc2)
            } else if s.get_char(e) == ']' {
                let ghost acc0 = acc.deep_view();
                let ghost vv = v@;
                let mut acc2 = acc;
                acc2.push(v);
                proof {
                    assert(acc2.deep_view() =~~= acc0.push(vv));
                }
                Some((acc2, e + 1))
            } else {
                None
            }
        },
    }
}

/// Executable mirror of `scan_regiao_members`.
fn scan_regiao_members_ex(
    s: &str,
    i: usize,
    id: Option<i32>,
    sigla: Option<String>,
    nome: Option<String>,
) -> (r: Option<(Regiao, usize)>)
    requires
        i <= s@.len(),
    ensures
        regiao_res_matches(
            scan_regiao_members(
                s@,
                i as int,
                opt_i32_view(id),
                sigla.deep_view(),
                nome.deep_view(),
            ),
            r,
        ),
        r matches Some(p) ==> i < p.1 <= s@.len(),
    decreases s@.len() - i,
{
    let n = s.unicode_len();
    if i >= n || s.get_char(i) != '"' {
        return None;
    }
    proof {
        lemma_scan_string_adv(s@, i + 1);
    }
    let (key, a) = match scan_string_ex(s, i + 1) {
        None => {
            return None;
        },
        Some(p) => p,
    };
    let b = skip_ws_ex(s, a);
    if b >= n || s.get_char(b) != ':' {
        return None;
    }
    let c = skip_ws_ex(s, b + 1);
    let is_id = key == String::from_str("id");
    let is_sigla = key == String::from_str("sigla");
    let is_nome = key == String::from_str("nome");
    let upd: Option<(Option<i32>, Option<String>, Option<String>, usize)> = if is_id {
        if id.is_some() {
            None
        } else {
            proof {
                lemma_scan_int_adv(s@, c as int);
            }
            match scan_int_ex(s, c) {
                None => None,
                Some((v, d0)) => Some((Some(v), sigla, nome, d0)),
            }
        }
    } else if is_sigla || is_nome {
        if c >= n || s.get_char(c) != '"' {
            None
        } else {
            proof {
                lemma_scan_string_adv(s@, c + 1);
            }
            match scan_string_ex(s, c + 1) {
                None => None,
                Some((v, d0)) => if is_sigla {
                    if sigla.is_some() {
                        None
                    } else {
                        Some((id, Some(v), nome, d0))
                    }
                } else {
                    if nome.is_some() {
                        None
                    } else {
                        Some((id, sigla, Some(v), d0))
                    }
                },
            }
        }
    } else {
        proof {
            lemma_skip_value_adv(s@, c as int);
        }
        match skip_value_ex(s, c) {
            None => None,
            Some(j) => Some((id, sigla, nome, j)),
        }
    };
    match upd {
        None => None,
        Some((id2, s2, n2, v_end)) => {
            let e = skip_ws_ex(s, v_end);
            if e >= n {
                None
            } else if s.get_char(e) == ',' {
                let next = skip_ws_ex(s, e + 1);
                proof {
                    assert(step(s@, i as int, next as int) == next as int);
                }
                scan_regiao_members_ex(s, next, id2, s2, n2)
            } else if s.get_char(e) == '}' {
                match (id2, s2, n2) {
                    (Some(iv), Some(sv), Some(nv)) => Some(
                        (Regiao { id: iv, sigla: sv, nome: nv }, e + 1),
                    ),
                    _ => None,
                }
            } else {
                None
            }
        },
    }
}

/// Executable mirror of `scan_ddd_members`.
fn scan_ddd_members_ex(
    s: &str,
    i: usize,
    state: Option<String>,
    cities: Option<Vec<String>>,
    nome: Option<Option<String>>,
    regiao: Option<Option<Regiao>>,
) -> (r: Option<(Ddd, usize)>)
    requires
        i <= s@.len(),
    ensures
        ddd_res_matches(
            scan_ddd_members(
                s@,
                i as int,
                state.deep_view(),
                cities.deep_view(),
                nome.deep_view(),
                opt_opt_regiao_view(regiao),
            ),
            r,
        ),
        r matches Some(p) ==> p.1 <= s@.len(),
    decreases s@.len() - i,
{
    let n = s.unicode_len();
    if i >= n || s.get_char(i) != '"' {
        return None;
    }
    proof {
        lemma_scan_string_adv(s@, i + 1);
    }
    let (key, a) = match scan_string_ex(s, i + 1) {
        None => {
            return None;
        },
        Some(p) => p,
    };
    let b = skip_ws_ex(s, a);
    if b >= n || s.get_char(b) != ':' {
        return None;
    }
    let c = skip_ws_ex(s, b + 1);
    let is_state = key == String::from_str("state");
    let is_cities = key == String::from_str("cities");
    let is_nome = key == String::from_str("nome");
    let is_regiao = key == String::from_str("regiao");
    let upd: Option<
        (Option<String>, Option<Vec<String>>, Option<Option<String>>, Option<Option<Regiao>>, usize),
    > = if is_state {
        if state.is_some() || c >= n {
            None
        } else if s.get_char(c) != '"' {
            None
        } else {
            proof {
                lemma_scan_string_adv(s@, c + 1);
            }
            match scan_string_ex(s, c + 1) {
                None => None,
                Some((v, d0)) => Some((Some(v), cities, nome, regiao, d0)),
            }
        }
    } else if is_cities {
        if cities.is_some() || c >= n {
            None
        } else if s.get_char(c) != '[' {
            None
        } else {
            let e0 = skip_ws_ex(s, c + 1);
            let empty_cities: Vec<String> = Vec::new();
            proof {
                assert(empty_cities.deep_view() =~~= Seq::<Seq<char>>::empty());
            }
            if e0 < n && s.get_char(e0) == ']' {
                Some((state, Some(empty_cities), nome, regiao, e0 + 1))
            } else {
                match scan_cities_items_ex(s, e0, empty_cities) {
                    None => None,
                    Some((cs, d0)) => Some((state, Some(cs), nome, regiao, d0)),
                }
            }
        }
    } else if is_nome {
        if nome.is_some() {
            None
        } else if has_null_ex(s, c) {
            Some((state, cities, Some(None), regiao, c + 4))
        } else if c < n && s.get_char(c) == '"' {
            proof {
                lemma_scan_string_adv(s@, c + 1);
            }
            match scan_string_ex(s, c + 1) {
                None => None,
                Some((v, d0)) => Some((state, cities, Some(Some(v)), regiao, d0)),
            }
        } else {
            None
        }
    } else if is_regiao {
        if regiao.is_some() {
            None
        } else if has_null_ex(s, c) {
            Some((state, cities, nome, Some(None), c + 4))
        } else if c < n && s.get_char(c) == '{' {
            let r0 = skip_ws_ex(s, c + 1);
            match scan_regiao_members_ex(s, r0, None, None, None) {
                None => None,
                Some((rv, d0)) => Some((state, cities, nome, Some(Some(rv)), d0)),
            }
        } else {
            None
        }
    } else {
        proof {
            lemma_skip_value_adv(s@, c as int);
        }
        match skip_value_ex(s, c) {
            None => None,
            Some(j) => Some((state, cities, nome, regiao, j)),
        }
    };
    match upd {
        None => None,
        Some((s2, c2, n2, r2, v_end)) => {
            let e = skip_ws_ex(s, v_end);
            if e >= n {
                None
            } else if s.get_char(e) == ',' {
                let next = skip_ws_ex(s, e + 1);
                proof {
                    assert(step(s@, i as int, next as int) == next as int);
                }
                scan_ddd_members_ex(s, next, s2, c2, n2, r2)
            } else if s.get_char(e) == '}' {
                match (s2, c2) {
                    (Some(sv), Some(cv)) => Some(
                        (
                            Ddd {
                                state: sv,
                                cities: cv,
                                nome: match n2 {
                                    Some(x) => x,
                                    None => None,
                                },
                                regiao: match r2 {
                                    Some(x) => x,
                                    None => None,
                                },
                            },
                            e + 1,
                        ),
                    ),
                    _ => None,
                }
            } else {
                None
            }
        },
    }
}

/// Decodes the body of a successful request.
///
/// Returns the record exactly when `spec_decode_ddd` accepts the text.
pub fn decode_ddd(body: &str) -> (r: Option<Ddd>)
    ensures
        match spec_decode_ddd(body@) {
            Some(g) => r matches Some(d) && d@ == g,
            None => r is None,
        },
{
    let n = body.unicode_len();
    let i = skip_ws_ex(body, 0);
    if i >= n || body.get_char(i) != '{' {
        return None;
    }
    let j = skip_ws_ex(body, i + 1);
    match scan_ddd_members_ex(body, j, None, None, None, None) {
        None => None,
        Some((d, p)) => {
            let q = skip_ws_ex(body, p);
            if q == n {
                Some(d)
            } else {
                None
            }
        },
    }
}

/// Decodes the error body of a failed request.
///
/// Returns the record exactly when `spec_decode_err` accepts the text.
pub fn decode_ddd_error(body: &str) -> (r: Option<DddError>)
    ensures
        match spec_decode_err(body@) {
            Some(g) => r matches Some(e) && e@ == g,
            None => r is None,
        },
{
    let n = body.unicode_len();
    let i = skip_ws_ex(body, 0);
    if i >= n || body.get_char(i) != '{' {
        return None;
    }
    let j = skip_ws_ex(body, i + 1);
    match scan_err_members_ex(body, j, None, None, None) {
        None => None,
        Some((e, p)) => {
            let q = skip_ws_ex(body, p);
            if q == n {
                Some(e)
            } else {
                None
            }
        },
    }
}

/// The JSON literal `null`.
pub open spec fn null_lit() -> Seq<char> {
    seq!['n', 'u', 'l', 'l']
}

/// An optional string member as the encoder writes it: `null` when absent.
pub open spec fn enc_opt_str(o: Option<Seq<char>>) -> Seq<char> {
    match o {
        Some(t) => quoted(t),
        None => null_lit(),
    }
}

/// The city list from index `k` on, comma-separated.
pub open spec fn enc_cities_from(cs: Seq<Seq<char>>, k: int) -> Seq<char>
    decreases cs.len() - k,
{
    if k < 0 || k >= cs.len() {
        Seq::empty()
    } else if k == cs.len() - 1 {
        quoted(cs[k])
    } else {
        quoted(cs[k]) + seq![','] + enc_cities_from(cs, k + 1)
    }
}

/// The city array as the encoder writes it.
pub open spec fn enc_cities(cs: Seq<Seq<char>>) -> Seq<char> {
    seq!['['] + enc_cities_from(cs, 0) + seq![']']
}

/// The region object as the encoder writes it.
pub open spec fn spec_encode_regiao(r: RegiaoV) -> Seq<char> {
    seq!['{'] + quoted("id"@) + seq![':'] + enc_int(r.id) + seq![','] + quoted("sigla"@)
        + seq![':'] + quoted(r.sigla) + seq![','] + quoted("nome"@) + seq![':'] + quoted(r.nome)
        + seq!['}']
}

/// An optional region member as the encoder writes it: `null` when absent.
pub open spec fn enc_opt_regiao(o: Option<RegiaoV>) -> Seq<char> {
    match o {
        Some(r) => spec_encode_regiao(r),
        None => null_lit(),
    }
}

/// The lookup record as the encoder writes it: every field, in schema
/// order, absent options as `null`.
pub open spec fn spec_encode_ddd(d: DddV) -> Seq<char> {
    seq!['{'] + quoted("state"@) + seq![':'] + quoted(d.state) + seq![','] + quoted("cities"@)
        + seq![':'] + enc_cities(d.cities) + seq![','] + quoted("nome"@) + seq![':'] + enc_opt_str(
        d.nome,
    ) + seq![','] + quoted("regiao"@) + seq![':'] + enc_opt_regiao(d.regiao) + seq!['}']
}

/// The error record as the encoder writes it.
pub open spec fn spec_encode_err(e: DddErrorV) -> Seq<char> {
    seq!['{'] + quoted("message"@) + seq![':'] + quoted(e.message) + seq![','] + quoted("name"@)
        + seq![':'] + quoted(e.name) + seq![','] + quoted("type"@) + seq![':'] + quoted(e.kind)
        + seq!['}']
}

fn null_ex() -> (r: String)
    ensures
        r@ == null_lit(),
{
    let mut out = String::new();
    out.push('n');
    out.push('u');
    out.push('l');
    out.push('l');
    proof {
        assert(out@ =~= null_lit());
    }
    out
}

/// Executable mirror of `enc_cities_from`.
fn enc_cities_from_ex(cs: &Vec<String>, k: usize) -> (r: String)
    ensures
        r@ == enc_cities_from(cs.deep_view(), k as int),
    decreases cs.len() - k,
{
    if k >= cs.len() {
        String::new()
    } else {
        let mut out = quote_str_ex(cs[k].as_str());
        proof {
            assert(cs.deep_view()[k as int] == cs@[k as int]@);
        }
        if k + 1 < cs.len() {
            out.push(',');
            let rest = enc_cities_from_ex(cs, k + 1);
            out.append(rest.as_str());
            proof {
                assert(out@ =~= quoted(cs.deep_view()[k as int]) + seq![','] + enc_cities_from(
                    cs.deep_view(),
                    k + 1,
                ));
            }
        }
        out
    }
}

/// Encodes a region record as the upstream API would.
pub fn encode_regiao(r: &Regiao) -> (out: String)
    ensures
        out@ == spec_encode_regiao(r@),
{
    let mut out = String::new();
    out.push('{');
    let t = quote_str_ex("id");
    out.append(t.as_str());
    out.push(':');
    let t = enc_int_ex(r.id);
    out.append(t.as_str());
    out.push(',');
    let t = quote_str_ex("sigla");
    out.append(t.as_str());
    out.push(':');
    let t = quote_str_ex(r.sigla.as_str());
    out.append(t.as_str());
    out.push(',');
    let t = quote_str_ex("nome");
    out.append(t.as_str());
    out.push(':');
    let t = quote_str_ex(r.nome.as_str());
    out.append(t.as_str());
    out.push('}');
    proof {
        assert(out@ =~= spec_encode_regiao(r@));
    }
    out
}

/// Encodes a lookup record as the upstream API would: every field in
/// schema order, absent options as `null`.
pub fn encode_ddd(d: &Ddd) -> (out: String)
    ensures
        out@ == spec_encode_ddd(d@),
{
    let mut out = String::new();
    out.push('{');
    let t = quote_str_ex("state");
    out.append(t.as_str());
    out.push(':');
    let t = quote_str_ex(d.state.as_str());
    out.append(t.as_str());
    out.push(',');
    let t = quote_str_ex("cities");
    out.append(t.as_str());
    out.push(':');
    out.push('[');
    let t = enc_cities_from_ex(&d.cities, 0);
    out.append(t.as_str());
    out.push(']');
    out.push(',');
    let t = quote_str_ex("nome");
    out.append(t.as_str());
    out.push(':');
    let t = match &d.nome {
        Some(x) => quote_str_ex(x.as_str()),
        None => null_ex(),
    };
    out.append(t.as_str());
    out.push(',');
    let t = quote_str_ex("regiao");
    out.append(t.as_str());
    out.push(':');
    let t = match &d.regiao {
        Some(x) => encode_regiao(x),
        None => null_ex(),
    };
    out.append(t.as_str());
    out.push('}');
    proof {
        assert(out@ =~= spec_encode_ddd(d@));
    }
    out
}

/// Encodes an error record as the upstream API would.
pub fn encode_ddd_error(e: &DddError) -> (out: String)
    ensures
        out@ == spec_encode_err(e@),
{
    let mut out = String::new();
    out.push('{');
    let t = quote_str_ex("message");
    out.append(t.as_str());
    out.push(':');
    let t = quote_str_ex(e.message.as_str());
    out.append(t.as_str());
    out.push(',');
    let t = quote_str_ex("name");
    out.append(t.as_str());
    out.push(':');
    let t = quote_str_ex(e.name.as_str());
    out.append(t.as_str());
    out.push(',');
    let t = quote_str_ex("type");
    out.append(t.as_str());
    out.push(':');
    let t = quote_str_ex(e.kind.as_str());
    out.append(t.as_str());
    out.push('}');
    proof {
        assert(out@ =~= spec_encode_err(e@));
    }
    out
}

/// Maps an HTTP status and response body to the result of a lookup.
///
/// On 200 the body must decode as a lookup record; on any other status a
/// well-formed error body becomes an `UnexpectedError` tagged `NotFound`
/// that carries the actual status code and the body's message. A body that
/// does not decode becomes an `UnexpectedError` tagged `Unexpected` with an
/// empty message.
pub fn get_ddd_outcome(status: u16, body: &str) -> (r: Result<Ddd, UnexpectedError>)
    ensures
        status == 200 && spec_decode_ddd(body@) is Some ==> (r matches Ok(d) && d@
            == spec_decode_ddd(body@).unwrap()),
        status == 200 && spec_decode_ddd(body@) is None ==> (r matches Err(e) && e@.code == 200
            && e@.message == Seq::<char>::empty() && e@.error is Unexpected),
        status != 200 && spec_decode_err(body@) is Some ==> (r matches Err(e) && e@.code == status
            && e@.message == spec_decode_err(body@).unwrap().message && e@.error
            == ErroredV::NotFound(spec_decode_err(body@).unwrap())),
        status != 200 && spec_decode_err(body@) is None ==> (r matches Err(e) && e@.code == status
            && e@.message == Seq::<char>::empty() && e@.error is Unexpected),
{
    if status == 200 {
        match decode_ddd(body) {
            Some(d) => Ok(d),
            None => Err(
                UnexpectedError { code: status, message: String::new(), error: Errored::Unexpected },
            ),
        }
    } else {
        match decode_ddd_error(body) {
            Some(e) => {
                let msg = e.message.clone();
                Err(UnexpectedError { code: status, message: msg, error: Errored::NotFound(e) })
            },
            None => Err(
                UnexpectedError { code: status, message: String::new(), error: Errored::Unexpected },
            ),
        }
    }
}

/// Maps an HTTP status and response body to the result of an existence
/// check: 404 means the code is absent (`Ok(false)`), 200 that it exists
/// (`Ok(true)`); any other status is mapped as in `get_ddd_outcome`.
pub fn ddd_exists_outcome(status: u16, body: &str) -> (r: Result<bool, UnexpectedError>)
    ensures
        status == 404 ==> (r matches Ok(b) && b == false),
        status == 200 ==> (r matches Ok(b) && b == true),
        status != 200 && status != 404 && spec_decode_err(body@) is Some ==> (r matches Err(e)
            && e@.code == status && e@.message == spec_decode_err(body@).unwrap().message
            && e@.error == ErroredV::NotFound(spec_decode_err(body@).unwrap())),
        status != 200 && status != 404 && spec_decode_err(body@) is None ==> (r matches Err(e)
            && e@.code == status && e@.message == Seq::<char>::empty() && e@.error is Unexpected),
{
    if status == 404 {
        Ok(false)
    } else if status == 200 {
        Ok(true)
    } else {
        match decode_ddd_error(body) {
            Some(e) => {
                let msg = e.message.clone();
                Err(UnexpectedError { code: status, message: msg, error: Errored::NotFound(e) })
            },
            None => Err(
                UnexpectedError { code: status, message: String::new(), error: Errored::Unexpected },
            ),
        }
    }
}

} // verus!
