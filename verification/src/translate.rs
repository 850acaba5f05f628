//! The command translator: maps a verb and its argument tokens, plus the
//! per-invocation flags, to exactly one canonical action request, or to
//! nothing when no mapping exists. Pure: no side effects, no I/O.

use vstd::prelude::*;
use crate::json::{Json, JsonV, jv_membs, jv_seq, lemma_jv_membs, lemma_jv_seq};

verus! {

broadcast use vstd::seq::group_seq_axioms;

/// One action request: a correlation id, an action name, and the
/// action's named parameters, in order.
pub struct Request {
    pub id: String,
    pub action: String,
    pub params: Vec<(String, Json)>,
}

/// The mathematical form of [`Request`].
#[verifier::ext_equal]
pub struct RequestV {
    pub id: Seq<char>,
    pub action: Seq<char>,
    pub params: Seq<(Seq<char>, JsonV)>,
}

impl View for Request {
    type V = RequestV;

    open spec fn view(&self) -> RequestV {
        RequestV { id: self.id@, action: self.action@, params: jv_membs(self.params@) }
    }
}

// ---------------------------------------------------------------------------
// Specification helpers
// ---------------------------------------------------------------------------

/// A string-valued parameter.
pub open spec fn ps(k: Seq<char>, v: Seq<char>) -> (Seq<char>, JsonV) {
    (k, JsonV::Str(v))
}

/// A boolean-valued parameter.
pub open spec fn pb(k: Seq<char>, b: bool) -> (Seq<char>, JsonV) {
    (k, JsonV::Bool(b))
}

/// A signed-integer-valued parameter, carried as its decimal literal.
pub open spec fn pn(k: Seq<char>, n: int) -> (Seq<char>, JsonV) {
    (k, JsonV::Num(crate::numtext::dec_int(n)))
}

/// An optional token: the token at `i` as a string, or null.
pub open spec fn popt(k: Seq<char>, rest: Seq<Seq<char>>, i: int) -> (Seq<char>, JsonV) {
    if 0 <= i < rest.len() {
        (k, JsonV::Str(rest[i]))
    } else {
        (k, JsonV::Null)
    }
}

/// The tokens from `i` on, joined with single spaces.
pub open spec fn join_sp(toks: Seq<Seq<char>>, i: int) -> Seq<char>
    decreases toks.len() - i,
{
    if !(0 <= i < toks.len()) {
        Seq::empty()
    } else if i == toks.len() - 1 {
        toks[i]
    } else {
        toks[i] + seq![' '] + join_sp(toks, i + 1)
    }
}

/// The joined trailing text from `i` on as a string value, or null when
/// there are no tokens there.
pub open spec fn pjoin(k: Seq<char>, rest: Seq<Seq<char>>, i: int) -> (Seq<char>, JsonV) {
    if i < rest.len() {
        (k, JsonV::Str(join_sp(rest, i)))
    } else {
        (k, JsonV::Null)
    }
}

/// Whether some token equals `t`.
pub open spec fn has_tok(rest: Seq<Seq<char>>, t: Seq<char>) -> bool {
    exists|i: int| 0 <= i < rest.len() && rest[i] == t
}

/// The first position holding `t`, from `i` on.
pub open spec fn find_tok(rest: Seq<Seq<char>>, t: Seq<char>, i: int) -> Option<int>
    decreases rest.len() - i,
{
    if !(0 <= i < rest.len()) {
        None
    } else if rest[i] == t {
        Some(i)
    } else {
        find_tok(rest, t, i + 1)
    }
}

/// The token after the first `t`, as a string value, or null.
pub open spec fn pafter(k: Seq<char>, rest: Seq<Seq<char>>, t: Seq<char>) -> (Seq<char>, JsonV) {
    match find_tok(rest, t, 0) {
        Some(i) => popt(k, rest, i + 1),
        None => (k, JsonV::Null),
    }
}

/// Whether the target already names a scheme: it starts with `http`.
pub open spec fn starts_http(s: Seq<char>) -> bool {
    s.len() >= 4 && s.subrange(0, 4) == "http"@
}

/// Each token as a string value, from `i` on.
pub open spec fn strs_from(toks: Seq<Seq<char>>, i: int) -> Seq<JsonV>
    decreases toks.len() - i,
{
    if !(0 <= i < toks.len()) {
        Seq::empty()
    } else {
        seq![JsonV::Str(toks[i])] + strs_from(toks, i + 1)
    }
}

// ---------------------------------------------------------------------------
// Executable helpers
// ---------------------------------------------------------------------------

fn p_str(k: &str, v: &String) -> (r: (String, Json))
    ensures
        (r.0@, r.1@) == ps(k@, v@),
{
    (k.to_owned(), Json::Str(v.clone()))
}

fn p_str_owned(k: &str, v: String) -> (r: (String, Json))
    ensures
        (r.0@, r.1@) == ps(k@, v@),
{
    (k.to_owned(), Json::Str(v))
}

fn p_bool(k: &str, b: bool) -> (r: (String, Json))
    ensures
        (r.0@, r.1@) == pb(k@, b),
{
    (k.to_owned(), Json::Bool(b))
}

fn p_num_i32(k: &str, n: i32) -> (r: (String, Json))
    ensures
        (r.0@, r.1@) == pn(k@, n as int),
{
    (k.to_owned(), Json::Num(crate::numtext::i32_to_string(n)))
}

fn p_opt(k: &str, rest: &Vec<String>, i: usize) -> (r: (String, Json))
    ensures
        (r.0@, r.1@) == popt(k@, rest.deep_view(), i as int),
{
    if i < rest.len() {
        proof {
            assert(rest.deep_view()[i as int] == rest@[i as int]@);
        }
        (k.to_owned(), Json::Str(rest[i].clone()))
    } else {
        (k.to_owned(), Json::Null)
    }
}

/// Joins the tokens from `i` on with single spaces.
fn join_from(toks: &Vec<String>, i: usize) -> (r: String)
    ensures
        r@ == join_sp(toks.deep_view(), i as int),
    decreases toks.len() - i,
{
    let ghost dv = toks.deep_view();
    if i >= toks.len() {
        let r = String::new();
        proof {
            assert(r@ =~= join_sp(dv, i as int));
        }
        r
    } else if i == toks.len() - 1 {
        proof {
            assert(dv[i as int] == toks@[i as int]@);
        }
        toks[i].clone()
    } else {
        proof {
            assert(dv[i as int] == toks@[i as int]@);
        }
        let tail = join_from(toks, i + 1);
        let head = toks[i].clone();
        let mut out = crate::strutil::str_to_chars(head.as_str());
        out.push(' ');
        let mut tcs = crate::strutil::str_to_chars(tail.as_str());
        out.append(&mut tcs);
        let r = crate::strutil::chars_to_string(&out);
        proof {
            assert(r@ =~= join_sp(dv, i as int));
        }
        r
    }
}

fn p_join(k: &str, rest: &Vec<String>, i: usize) -> (r: (String, Json))
    ensures
        (r.0@, r.1@) == pjoin(k@, rest.deep_view(), i as int),
{
    if i < rest.len() {
        (k.to_owned(), Json::Str(join_from(rest, i)))
    } else {
        (k.to_owned(), Json::Null)
    }
}

/// Whether some token equals `t`.
#[verifier::loop_isolation(false)]
fn ex_has_tok(rest: &Vec<String>, t: &str) -> (r: bool)
    ensures
        r == has_tok(rest.deep_view(), t@),
{
    let ghost dv = rest.deep_view();
    let mut i: usize = 0;
    while i < rest.len()
        invariant
            0 <= i <= rest.len(),
            forall|k: int| 0 <= k < i ==> dv[k] != t@,
        decreases rest.len() - i,
    {
        proof {
            assert(dv[i as int] == rest@[i as int]@);
        }
        if crate::strutil::tok_is(&rest[i], t) {
            return true;
        }
        i = i + 1;
    }
    false
}

/// The first position holding `t`.
#[verifier::loop_isolation(false)]
fn ex_find_tok(rest: &Vec<String>, t: &str) -> (r: Option<usize>)
    ensures
        match r {
            Some(i) => find_tok(rest.deep_view(), t@, 0) == Some(i as int) && i < rest.len(),
            None => find_tok(rest.deep_view(), t@, 0) is None,
        },
{
    let ghost dv = rest.deep_view();
    let mut i: usize = 0;
    while i < rest.len()
        invariant
            0 <= i <= rest.len(),
            find_tok(dv, t@, 0) == find_tok(dv, t@, i as int),
        decreases rest.len() - i,
    {
        proof {
            assert(dv[i as int] == rest@[i as int]@);
        }
        if crate::strutil::tok_is(&rest[i], t) {
            return Some(i);
        }
        i = i + 1;
    }
    None
}

/// The token after the first `t`, as a string value, or null.
fn p_after(k: &str, rest: &Vec<String>, t: &str) -> (r: (String, Json))
    ensures
        (r.0@, r.1@) == pafter(k@, rest.deep_view(), t@),
{
    match ex_find_tok(rest, t) {
        Some(i) => p_opt(k, rest, i + 1),
        None => (k.to_owned(), Json::Null),
    }
}

fn ex_starts_http(s: &String) -> (r: bool)
    ensures
        r == starts_http(s@),
{
    let cs = crate::strutil::str_to_chars(s.as_str());
    proof {
        reveal_strlit("http");
    }
    if cs.len() >= 4 && cs[0] == 'h' && cs[1] == 't' && cs[2] == 't' && cs[3] == 'p' {
        proof {
            assert(s@.subrange(0, 4) =~= "http"@);
        }
        true
    } else {
        proof {
            if s@.len() >= 4 && s@.subrange(0, 4) == "http"@ {
                assert(s@[0] == "http"@[0]);
                assert(s@[1] == "http"@[1]);
                assert(s@[2] == "http"@[2]);
                assert(s@[3] == "http"@[3]);
            }
        }
        false
    }
}

// Request constructors for each parameter count: they carry the view
// proof once, so each verb arm stays small.

fn mk0(id: String, action: &str) -> (r: Request)
    ensures
        r@ == (RequestV { id: id@, action: action@, params: Seq::empty() }),
{
    let r = Request { id, action: action.to_owned(), params: Vec::new() };
    proof {
        lemma_jv_membs(r.params@);
        assert(jv_membs(r.params@) =~= Seq::<(Seq<char>, JsonV)>::empty());
    }
    r
}

fn mk1(id: String, action: &str, p1: (String, Json)) -> (r: Request)
    ensures
        r@ == (RequestV { id: id@, action: action@, params: seq![(p1.0@, p1.1@)] }),
{
    let ghost g1 = (p1.0@, p1.1@);
    let params = vec![p1];
    proof {
        lemma_jv_membs(params@);
        assert(jv_membs(params@) =~= seq![g1]);
    }
    Request { id, action: action.to_owned(), params }
}

fn mk2(id: String, action: &str, p1: (String, Json), p2: (String, Json)) -> (r: Request)
    ensures
        r@ == (RequestV {
            id: id@,
            action: action@,
            params: seq![(p1.0@, p1.1@), (p2.0@, p2.1@)],
        }),
{
    let ghost g1 = (p1.0@, p1.1@);
    let ghost g2 = (p2.0@, p2.1@);
    let params = vec![p1, p2];
    proof {
        lemma_jv_membs(params@);
        assert(jv_membs(params@) =~= seq![g1, g2]);
    }
    Request { id, action: action.to_owned(), params }
}

fn mk3(id: String, action: &str, p1: (String, Json), p2: (String, Json), p3: (String, Json)) -> (r:
    Request)
    ensures
        r@ == (RequestV {
            id: id@,
            action: action@,
            params: seq![(p1.0@, p1.1@), (p2.0@, p2.1@), (p3.0@, p3.1@)],
        }),
{
    let ghost g1 = (p1.0@, p1.1@);
    let ghost g2 = (p2.0@, p2.1@);
    let ghost g3 = (p3.0@, p3.1@);
    let params = vec![p1, p2, p3];
    proof {
        lemma_jv_membs(params@);
        assert(jv_membs(params@) =~= seq![g1, g2, g3]);
    }
    Request { id, action: action.to_owned(), params }
}

fn mk4(
    id: String,
    action: &str,
    p1: (String, Json),
    p2: (String, Json),
    p3: (String, Json),
    p4: (String, Json),
) -> (r: Request)
    ensures
        r@ == (RequestV {
            id: id@,
            action: action@,
            params: seq![(p1.0@, p1.1@), (p2.0@, p2.1@), (p3.0@, p3.1@), (p4.0@, p4.1@)],
        }),
{
    let ghost g1 = (p1.0@, p1.1@);
    let ghost g2 = (p2.0@, p2.1@);
    let ghost g3 = (p3.0@, p3.1@);
    let ghost g4 = (p4.0@, p4.1@);
    let params = vec![p1, p2, p3, p4];
    proof {
        lemma_jv_membs(params@);
        assert(jv_membs(params@) =~= seq![g1, g2, g3, g4]);
    }
    Request { id, action: action.to_owned(), params }
}

fn mk5(
    id: String,
    action: &str,
    p1: (String, Json),
    p2: (String, Json),
    p3: (String, Json),
    p4: (String, Json),
    p5: (String, Json),
) -> (r: Request)
    ensures
        r@ == (RequestV {
            id: id@,
            action: action@,
            params: seq![
                (p1.0@, p1.1@),
                (p2.0@, p2.1@),
                (p3.0@, p3.1@),
                (p4.0@, p4.1@),
                (p5.0@, p5.1@),
            ],
        }),
{
    let ghost g1 = (p1.0@, p1.1@);
    let ghost g2 = (p2.0@, p2.1@);
    let ghost g3 = (p3.0@, p3.1@);
    let ghost g4 = (p4.0@, p4.1@);
    let ghost g5 = (p5.0@, p5.1@);
    let params = vec![p1, p2, p3, p4, p5];
    proof {
        lemma_jv_membs(params@);
        assert(jv_membs(params@) =~= seq![g1, g2, g3, g4, g5]);
    }
    Request { id, action: action.to_owned(), params }
}


// ---------------------------------------------------------------------------
// The translation, as a specification
// ---------------------------------------------------------------------------

pub open spec fn rv(id: Seq<char>, action: Seq<char>, params: Seq<(Seq<char>, JsonV)>) -> Option<
    RequestV,
> {
    Some(RequestV { id, action, params })
}

pub open spec fn spec_get(rest: Seq<Seq<char>>, id: Seq<char>) -> Option<RequestV> {
    if rest.len() == 0 {
        None
    } else if rest[0] == "text"@ {
        if rest.len() >= 2 { rv(id, "gettext"@, seq![ps("selector"@, rest[1])]) } else { None }
    } else if rest[0] == "html"@ {
        if rest.len() >= 2 { rv(id, "innerhtml"@, seq![ps("selector"@, rest[1])]) } else { None }
    } else if rest[0] == "value"@ {
        if rest.len() >= 2 { rv(id, "inputvalue"@, seq![ps("selector"@, rest[1])]) } else { None }
    } else if rest[0] == "attr"@ {
        if rest.len() >= 3 {
            rv(id, "getattribute"@, seq![ps("selector"@, rest[1]), ps("attribute"@, rest[2])])
        } else {
            None
        }
    } else if rest[0] == "url"@ {
        rv(id, "url"@, Seq::empty())
    } else if rest[0] == "title"@ {
        rv(id, "title"@, Seq::empty())
    } else if rest[0] == "count"@ {
        if rest.len() >= 2 { rv(id, "count"@, seq![ps("selector"@, rest[1])]) } else { None }
    } else if rest[0] == "box"@ {
        if rest.len() >= 2 { rv(id, "boundingbox"@, seq![ps("selector"@, rest[1])]) } else { None }
    } else {
        None
    }
}

pub open spec fn spec_is(rest: Seq<Seq<char>>, id: Seq<char>) -> Option<RequestV> {
    if rest.len() == 0 {
        None
    } else if rest[0] == "visible"@ {
        if rest.len() >= 2 { rv(id, "isvisible"@, seq![ps("selector"@, rest[1])]) } else { None }
    } else if rest[0] == "enabled"@ {
        if rest.len() >= 2 { rv(id, "isenabled"@, seq![ps("selector"@, rest[1])]) } else { None }
    } else if rest[0] == "checked"@ {
        if rest.len() >= 2 { rv(id, "ischecked"@, seq![ps("selector"@, rest[1])]) } else { None }
    } else {
        None
    }
}

pub open spec fn spec_find(rest: Seq<Seq<char>>, id: Seq<char>) -> Option<RequestV> {
    if rest.len() < 2 {
        None
    } else {
        let locator = rest[0];
        let value = rest[1];
        let subaction = if rest.len() > 2 {
            rest[2]
        } else {
            "click"@
        };
        let fillv = pjoin("value"@, rest, 3);
        let name = pafter("name"@, rest, "--name"@);
        let exact = has_tok(rest, "--exact"@);
        if locator == "role"@ {
            rv(
                id,
                "getbyrole"@,
                seq![
                    ps("role"@, value),
                    ps("subaction"@, subaction),
                    fillv,
                    name,
                    pb("exact"@, exact),
                ],
            )
        } else if locator == "text"@ {
            rv(
                id,
                "getbytext"@,
                seq![ps("text"@, value), ps("subaction"@, subaction), pb("exact"@, exact)],
            )
        } else if locator == "label"@ {
            rv(
                id,
                "getbylabel"@,
                seq![ps("label"@, value), ps("subaction"@, subaction), fillv, pb("exact"@, exact)],
            )
        } else if locator == "placeholder"@ {
            rv(
                id,
                "getbyplaceholder"@,
                seq![
                    ps("placeholder"@, value),
                    ps("subaction"@, subaction),
                    fillv,
                    pb("exact"@, exact),
                ],
            )
        } else if locator == "alt"@ {
            rv(
                id,
                "getbyalttext"@,
                seq![ps("text"@, value), ps("subaction"@, subaction), pb("exact"@, exact)],
            )
        } else if locator == "title"@ {
            rv(
                id,
                "getbytitle"@,
                seq![ps("text"@, value), ps("subaction"@, subaction), pb("exact"@, exact)],
            )
        } else if locator == "testid"@ {
            rv(
                id,
                "getbytestid"@,
                seq![ps("testId"@, value), ps("subaction"@, subaction), fillv],
            )
        } else if locator == "first"@ {
            rv(
                id,
                "nth"@,
                seq![ps("selector"@, value), pn("index"@, 0), ps("subaction"@, subaction), fillv],
            )
        } else if locator == "last"@ {
            rv(
                id,
                "nth"@,
                seq![ps("selector"@, value), pn("index"@, -1), ps("subaction"@, subaction), fillv],
            )
        } else if locator == "nth"@ {
            match crate::numtext::spec_parse_i32(value) {
                None => None,
                Some(idx) => {
                    if rest.len() >= 3 {
                        let sub = if rest.len() > 3 {
                            rest[3]
                        } else {
                            "click"@
                        };
                        rv(
                            id,
                            "nth"@,
                            seq![
                                ps("selector"@, rest[2]),
                                pn("index"@, idx as int),
                                ps("subaction"@, sub),
                                pjoin("value"@, rest, 4),
                            ],
                        )
                    } else {
                        None
                    }
                },
            }
        } else {
            None
        }
    }
}

pub open spec fn spec_mouse(rest: Seq<Seq<char>>, id: Seq<char>) -> Option<RequestV> {
    if rest.len() == 0 {
        None
    } else if rest[0] == "move"@ {
        if rest.len() >= 3 {
            match (crate::numtext::spec_parse_i32(rest[1]), crate::numtext::spec_parse_i32(
                rest[2],
            )) {
                (Some(x), Some(y)) => rv(
                    id,
                    "mousemove"@,
                    seq![pn("x"@, x as int), pn("y"@, y as int)],
                ),
                _ => None,
            }
        } else {
            None
        }
    } else if rest[0] == "down"@ {
        let b = if rest.len() > 1 {
            rest[1]
        } else {
            "left"@
        };
        rv(id, "mousedown"@, seq![ps("button"@, b)])
    } else if rest[0] == "up"@ {
        let b = if rest.len() > 1 {
            rest[1]
        } else {
            "left"@
        };
        rv(id, "mouseup"@, seq![ps("button"@, b)])
    } else if rest[0] == "wheel"@ {
        let dy: int = if rest.len() > 1 && crate::numtext::spec_parse_i32(rest[1]) is Some {
            crate::numtext::spec_parse_i32(rest[1])->Some_0 as int
        } else {
            100
        };
        let dx: int = if rest.len() > 2 && crate::numtext::spec_parse_i32(rest[2]) is Some {
            crate::numtext::spec_parse_i32(rest[2])->Some_0 as int
        } else {
            0
        };
        rv(id, "mousewheel"@, seq![pn("deltaX"@, dx), pn("deltaY"@, dy)])
    } else {
        None
    }
}

pub open spec fn spec_set(rest: Seq<Seq<char>>, id: Seq<char>) -> Option<RequestV> {
    if rest.len() == 0 {
        None
    } else if rest[0] == "viewport"@ {
        if rest.len() >= 3 {
            match (crate::numtext::spec_parse_i32(rest[1]), crate::numtext::spec_parse_i32(
                rest[2],
            )) {
                (Some(w), Some(h)) => rv(
                    id,
                    "viewport"@,
                    seq![pn("width"@, w as int), pn("height"@, h as int)],
                ),
                _ => None,
            }
        } else {
            None
        }
    } else if rest[0] == "device"@ {
        if rest.len() >= 2 { rv(id, "device"@, seq![ps("device"@, rest[1])]) } else { None }
    } else if rest[0] == "geo"@ || rest[0] == "geolocation"@ {
        if rest.len() >= 3 && crate::numtext::decimal_token(rest[1])
            && crate::numtext::decimal_token(rest[2]) {
            rv(
                id,
                "geolocation"@,
                seq![("latitude"@, JsonV::Num(rest[1])), ("longitude"@, JsonV::Num(rest[2]))],
            )
        } else {
            None
        }
    } else if rest[0] == "offline"@ {
        let off = if rest.len() > 1 {
            !(rest[1] == "off"@ || rest[1] == "false"@)
        } else {
            true
        };
        rv(id, "offline"@, seq![pb("offline"@, off)])
    } else if rest[0] == "headers"@ {
        if rest.len() >= 2 { rv(id, "headers"@, seq![ps("headers"@, rest[1])]) } else { None }
    } else if rest[0] == "credentials"@ || rest[0] == "auth"@ {
        if rest.len() >= 3 {
            rv(id, "credentials"@, seq![ps("username"@, rest[1]), ps("password"@, rest[2])])
        } else {
            None
        }
    } else if rest[0] == "media"@ {
        let color: Seq<char> = if has_tok(rest, "dark"@) {
            "dark"@
        } else if has_tok(rest, "light"@) {
            "light"@
        } else {
            "no-preference"@
        };
        let reduced = has_tok(rest, "reduced-motion"@);
        rv(id, "media"@, seq![ps("colorScheme"@, color), pb("reducedMotion"@, reduced)])
    } else {
        None
    }
}

pub open spec fn spec_network(rest: Seq<Seq<char>>, id: Seq<char>) -> Option<RequestV> {
    if rest.len() == 0 {
        None
    } else if rest[0] == "route"@ {
        if rest.len() >= 2 {
            rv(
                id,
                "route"@,
                seq![
                    ps("url"@, rest[1]),
                    pb("abort"@, has_tok(rest, "--abort"@)),
                    pafter("body"@, rest, "--body"@),
                ],
            )
        } else {
            None
        }
    } else if rest[0] == "unroute"@ {
        rv(id, "unroute"@, seq![popt("url"@, rest, 1)])
    } else if rest[0] == "requests"@ {
        rv(
            id,
            "requests"@,
            seq![
                pb("clear"@, has_tok(rest, "--clear"@)),
                pafter("filter"@, rest, "--filter"@),
            ],
        )
    } else {
        None
    }
}

pub open spec fn spec_storage(rest: Seq<Seq<char>>, id: Seq<char>) -> Option<RequestV> {
    if rest.len() > 0 && (rest[0] == "local"@ || rest[0] == "session"@) {
        let op = if rest.len() > 1 {
            rest[1]
        } else {
            "get"@
        };
        rv(
            id,
            "storage"@,
            seq![
                ps("storageType"@, rest[0]),
                ps("operation"@, op),
                popt("key"@, rest, 2),
                popt("value"@, rest, 3),
            ],
        )
    } else {
        None
    }
}

pub open spec fn spec_cookies(rest: Seq<Seq<char>>, id: Seq<char>) -> Option<RequestV> {
    let op = if rest.len() > 0 {
        rest[0]
    } else {
        "get"@
    };
    if op == "get"@ {
        rv(id, "cookies"@, seq![ps("operation"@, "get"@), popt("name"@, rest, 1)])
    } else if op == "set"@ {
        if rest.len() >= 3 {
            rv(
                id,
                "cookies"@,
                seq![ps("operation"@, "set"@), ps("name"@, rest[1]), ps("value"@, rest[2])],
            )
        } else {
            None
        }
    } else if op == "clear"@ {
        rv(id, "cookies"@, seq![ps("operation"@, "clear"@)])
    } else {
        rv(id, "cookies"@, seq![ps("operation"@, "get"@)])
    }
}

pub open spec fn spec_tab(rest: Seq<Seq<char>>, id: Seq<char>) -> Option<RequestV> {
    if rest.len() == 0 {
        rv(id, "tab_list"@, Seq::empty())
    } else if rest[0] == "new"@ {
        rv(id, "tab_new"@, seq![popt("url"@, rest, 1)])
    } else if rest[0] == "list"@ {
        rv(id, "tab_list"@, Seq::empty())
    } else if rest[0] == "close"@ {
        let idx = if rest.len() > 1 && crate::numtext::spec_parse_i32(rest[1]) is Some {
            pn("index"@, crate::numtext::spec_parse_i32(rest[1])->Some_0 as int)
        } else {
            ("index"@, JsonV::Null)
        };
        rv(id, "tab_close"@, seq![idx])
    } else if crate::numtext::spec_parse_i32(rest[0]) is Some {
        rv(
            id,
            "tab_switch"@,
            seq![pn("index"@, crate::numtext::spec_parse_i32(rest[0])->Some_0 as int)],
        )
    } else {
        rv(id, "tab_list"@, Seq::empty())
    }
}

pub open spec fn spec_frame(rest: Seq<Seq<char>>, id: Seq<char>) -> Option<RequestV> {
    if rest.len() > 0 && rest[0] == "main"@ {
        rv(id, "frame_main"@, Seq::empty())
    } else if rest.len() > 0 {
        rv(id, "frame"@, seq![ps("selector"@, rest[0])])
    } else {
        None
    }
}

pub open spec fn spec_dialog(rest: Seq<Seq<char>>, id: Seq<char>) -> Option<RequestV> {
    if rest.len() == 0 {
        None
    } else if rest[0] == "accept"@ {
        rv(id, "dialog"@, seq![ps("response"@, "accept"@), popt("promptText"@, rest, 1)])
    } else if rest[0] == "dismiss"@ {
        rv(id, "dialog"@, seq![ps("response"@, "dismiss"@)])
    } else {
        None
    }
}

pub open spec fn spec_trace(rest: Seq<Seq<char>>, id: Seq<char>) -> Option<RequestV> {
    if rest.len() == 0 {
        None
    } else if rest[0] == "start"@ {
        rv(id, "trace_start"@, seq![popt("path"@, rest, 1)])
    } else if rest[0] == "stop"@ {
        rv(id, "trace_stop"@, seq![popt("path"@, rest, 1)])
    } else {
        None
    }
}

pub open spec fn spec_state(rest: Seq<Seq<char>>, id: Seq<char>) -> Option<RequestV> {
    if rest.len() == 0 {
        None
    } else if rest[0] == "save"@ {
        if rest.len() >= 2 { rv(id, "state_save"@, seq![ps("path"@, rest[1])]) } else { None }
    } else if rest[0] == "load"@ {
        if rest.len() >= 2 { rv(id, "state_load"@, seq![ps("path"@, rest[1])]) } else { None }
    } else {
        None
    }
}

/// The snapshot option scan: each recognised option appends its
/// parameter; an option that takes a value consumes the following token
/// only when it can use it; unrecognised tokens are ignored.
pub open spec fn snap_scan(
    rest: Seq<Seq<char>>,
    i: int,
    acc: Seq<(Seq<char>, JsonV)>,
) -> Seq<(Seq<char>, JsonV)>
    decreases rest.len() - i,
{
    if !(0 <= i < rest.len()) {
        acc
    } else if rest[i] == "-i"@ || rest[i] == "--interactive"@ {
        snap_scan(rest, i + 1, acc.push(pb("interactive"@, true)))
    } else if rest[i] == "-c"@ || rest[i] == "--compact"@ {
        snap_scan(rest, i + 1, acc.push(pb("compact"@, true)))
    } else if rest[i] == "-d"@ || rest[i] == "--depth"@ {
        if i + 1 < rest.len() && crate::numtext::spec_parse_i32(rest[i + 1]) is Some {
            snap_scan(
                rest,
                i + 2,
                acc.push(
                    pn("maxDepth"@, crate::numtext::spec_parse_i32(rest[i + 1])->Some_0 as int),
                ),
            )
        } else {
            snap_scan(rest, i + 1, acc)
        }
    } else if rest[i] == "-s"@ || rest[i] == "--selector"@ {
        if i + 1 < rest.len() {
            snap_scan(rest, i + 2, acc.push(ps("selector"@, rest[i + 1])))
        } else {
            snap_scan(rest, i + 1, acc)
        }
    } else {
        snap_scan(rest, i + 1, acc)
    }
}

/// What command translation yields: exactly one request, or nothing.
/// `args` is the cleaned token list, `full` the full-page flag, `id` the
/// correlation id the request carries.
pub open spec fn spec_translate(args: Seq<Seq<char>>, full: bool, id: Seq<char>) -> Option<
    RequestV,
> {
    if args.len() == 0 {
        None
    } else {
        let cmd = args[0];
        let rest = args.drop_first();
        if cmd == "open"@ || cmd == "goto"@ || cmd == "navigate"@ {
            if rest.len() >= 1 {
                let url = if starts_http(rest[0]) {
                    rest[0]
                } else {
                    "https://"@ + rest[0]
                };
                rv(id, "navigate"@, seq![ps("url"@, url)])
            } else {
                None
            }
        } else if cmd == "back"@ {
            rv(id, "back"@, Seq::empty())
        } else if cmd == "forward"@ {
            rv(id, "forward"@, Seq::empty())
        } else if cmd == "reload"@ {
            rv(id, "reload"@, Seq::empty())
        } else if cmd == "click"@ {
            if rest.len() >= 1 { rv(id, "click"@, seq![ps("selector"@, rest[0])]) } else { None }
        } else if cmd == "dblclick"@ {
            if rest.len() >= 1 {
                rv(id, "dblclick"@, seq![ps("selector"@, rest[0])])
            } else {
                None
            }
        } else if cmd == "fill"@ {
            if rest.len() >= 1 {
                rv(
                    id,
                    "fill"@,
                    seq![ps("selector"@, rest[0]), ps("value"@, join_sp(rest, 1))],
                )
            } else {
                None
            }
        } else if cmd == "type"@ {
            if rest.len() >= 1 {
                rv(id, "type"@, seq![ps("selector"@, rest[0]), ps("text"@, join_sp(rest, 1))])
            } else {
                None
            }
        } else if cmd == "hover"@ {
            if rest.len() >= 1 { rv(id, "hover"@, seq![ps("selector"@, rest[0])]) } else { None }
        } else if cmd == "focus"@ {
            if rest.len() >= 1 { rv(id, "focus"@, seq![ps("selector"@, rest[0])]) } else { None }
        } else if cmd == "check"@ {
            if rest.len() >= 1 { rv(id, "check"@, seq![ps("selector"@, rest[0])]) } else { None }
        } else if cmd == "uncheck"@ {
            if rest.len() >= 1 { rv(id, "uncheck"@, seq![ps("selector"@, rest[0])]) } else { None }
        } else if cmd == "select"@ {
            if rest.len() >= 2 {
                rv(id, "select"@, seq![ps("selector"@, rest[0]), ps("value"@, rest[1])])
            } else {
                None
            }
        } else if cmd == "drag"@ {
            if rest.len() >= 2 {
                rv(id, "drag"@, seq![ps("source"@, rest[0]), ps("target"@, rest[1])])
            } else {
                None
            }
        } else if cmd == "upload"@ {
            if rest.len() >= 1 {
                rv(
                    id,
                    "upload"@,
                    seq![
                        ps("selector"@, rest[0]),
                        ("files"@, JsonV::Arr(strs_from(rest, 1))),
                    ],
                )
            } else {
                None
            }
        } else if cmd == "press"@ || cmd == "key"@ {
            if rest.len() >= 1 { rv(id, "press"@, seq![ps("key"@, rest[0])]) } else { None }
        } else if cmd == "keydown"@ {
            if rest.len() >= 1 { rv(id, "keydown"@, seq![ps("key"@, rest[0])]) } else { None }
        } else if cmd == "keyup"@ {
            if rest.len() >= 1 { rv(id, "keyup"@, seq![ps("key"@, rest[0])]) } else { None }
        } else if cmd == "scroll"@ {
            let dir = if rest.len() > 0 {
                rest[0]
            } else {
                "down"@
            };
            let amount: int = if rest.len() > 1 && crate::numtext::spec_parse_i32(rest[1])
                is Some {
                crate::numtext::spec_parse_i32(rest[1])->Some_0 as int
            } else {
                300
            };
            rv(id, "scroll"@, seq![ps("direction"@, dir), pn("amount"@, amount)])
        } else if cmd == "scrollintoview"@ || cmd == "scrollinto"@ {
            if rest.len() >= 1 {
                rv(id, "scrollintoview"@, seq![ps("selector"@, rest[0])])
            } else {
                None
            }
        } else if cmd == "wait"@ {
            if rest.len() >= 1 {
                match crate::numtext::spec_parse_u64(rest[0]) {
                    Some(ms) => rv(
                        id,
                        "wait"@,
                        seq![("timeout"@, JsonV::Num(crate::numtext::dec_digits(ms as nat)))],
                    ),
                    None => rv(id, "wait"@, seq![ps("selector"@, rest[0])]),
                }
            } else {
                None
            }
        } else if cmd == "screenshot"@ {
            rv(id, "screenshot"@, seq![popt("path"@, rest, 0), pb("fullPage"@, full)])
        } else if cmd == "pdf"@ {
            if rest.len() >= 1 { rv(id, "pdf"@, seq![ps("path"@, rest[0])]) } else { None }
        } else if cmd == "snapshot"@ {
            rv(id, "snapshot"@, snap_scan(rest, 0, Seq::empty()))
        } else if cmd == "eval"@ {
            rv(id, "evaluate"@, seq![ps("script"@, join_sp(rest, 0))])
        } else if cmd == "close"@ || cmd == "quit"@ || cmd == "exit"@ {
            rv(id, "close"@, Seq::empty())
        } else if cmd == "get"@ {
            spec_get(rest, id)
        } else if cmd == "is"@ {
            spec_is(rest, id)
        } else if cmd == "find"@ {
            spec_find(rest, id)
        } else if cmd == "mouse"@ {
            spec_mouse(rest, id)
        } else if cmd == "set"@ {
            spec_set(rest, id)
        } else if cmd == "network"@ {
            spec_network(rest, id)
        } else if cmd == "storage"@ {
            spec_storage(rest, id)
        } else if cmd == "cookies"@ {
            spec_cookies(rest, id)
        } else if cmd == "tab"@ {
            spec_tab(rest, id)
        } else if cmd == "window"@ {
            if rest.len() > 0 && rest[0] == "new"@ {
                rv(id, "window_new"@, Seq::empty())
            } else {
                None
            }
        } else if cmd == "frame"@ {
            spec_frame(rest, id)
        } else if cmd == "dialog"@ {
            spec_dialog(rest, id)
        } else if cmd == "trace"@ {
            spec_trace(rest, id)
        } else if cmd == "console"@ {
            rv(id, "console"@, seq![pb("clear"@, has_tok(rest, "--clear"@))])
        } else if cmd == "errors"@ {
            rv(id, "errors"@, seq![pb("clear"@, has_tok(rest, "--clear"@))])
        } else if cmd == "highlight"@ {
            if rest.len() >= 1 {
                rv(id, "highlight"@, seq![ps("selector"@, rest[0])])
            } else {
                None
            }
        } else if cmd == "state"@ {
            spec_state(rest, id)
        } else {
            None
        }
    }
}


// ---------------------------------------------------------------------------
// The executable translator
// ---------------------------------------------------------------------------

fn e_get(rest: &Vec<String>, id: String) -> (r: Option<Request>)
    ensures
        match r {
            None => spec_get(rest.deep_view(), id@) is None,
            Some(q) => spec_get(rest.deep_view(), id@) == Some(q@),
        },
{
    let ghost dvr = rest.deep_view();
    if rest.len() == 0 {
        return None;
    }
    proof {
        assert(dvr[0] == rest@[0]@);
        if rest@.len() >= 2 {
            assert(dvr[1] == rest@[1]@);
        }
        if rest@.len() >= 3 {
            assert(dvr[2] == rest@[2]@);
        }
    }
    let sub = &rest[0];
    if crate::strutil::tok_is(sub, "text") {
        if rest.len() >= 2 { Some(mk1(id, "gettext", p_str("selector", &rest[1]))) } else { None }
    } else if crate::strutil::tok_is(sub, "html") {
        if rest.len() >= 2 { Some(mk1(id, "innerhtml", p_str("selector", &rest[1]))) } else { None }
    } else if crate::strutil::tok_is(sub, "value") {
        if rest.len() >= 2 { Some(mk1(id, "inputvalue", p_str("selector", &rest[1]))) } else { None }
    } else if crate::strutil::tok_is(sub, "attr") {
        if rest.len() >= 3 {
            Some(mk2(id, "getattribute", p_str("selector", &rest[1]), p_str("attribute", &rest[2])))
        } else {
            None
        }
    } else if crate::strutil::tok_is(sub, "url") {
        Some(mk0(id, "url"))
    } else if crate::strutil::tok_is(sub, "title") {
        Some(mk0(id, "title"))
    } else if crate::strutil::tok_is(sub, "count") {
        if rest.len() >= 2 { Some(mk1(id, "count", p_str("selector", &rest[1]))) } else { None }
    } else if crate::strutil::tok_is(sub, "box") {
        if rest.len() >= 2 { Some(mk1(id, "boundingbox", p_str("selector", &rest[1]))) } else { None }
    } else {
        None
    }
}

fn e_is(rest: &Vec<String>, id: String) -> (r: Option<Request>)
    ensures
        match r {
            None => spec_is(rest.deep_view(), id@) is None,
            Some(q) => spec_is(rest.deep_view(), id@) == Some(q@),
        },
{
    let ghost dvr = rest.deep_view();
    if rest.len() == 0 {
        return None;
    }
    proof {
        assert(dvr[0] == rest@[0]@);
        if rest@.len() >= 2 {
            assert(dvr[1] == rest@[1]@);
        }
    }
    let sub = &rest[0];
    if crate::strutil::tok_is(sub, "visible") {
        if rest.len() >= 2 { Some(mk1(id, "isvisible", p_str("selector", &rest[1]))) } else { None }
    } else if crate::strutil::tok_is(sub, "enabled") {
        if rest.len() >= 2 { Some(mk1(id, "isenabled", p_str("selector", &rest[1]))) } else { None }
    } else if crate::strutil::tok_is(sub, "checked") {
        if rest.len() >= 2 { Some(mk1(id, "ischecked", p_str("selector", &rest[1]))) } else { None }
    } else {
        None
    }
}

#[verifier::rlimit(60)]
fn e_find(rest: &Vec<String>, id: String) -> (r: Option<Request>)
    ensures
        match r {
            None => spec_find(rest.deep_view(), id@) is None,
            Some(q) => spec_find(rest.deep_view(), id@) == Some(q@),
        },
{
    let ghost dvr = rest.deep_view();
    if rest.len() < 2 {
        return None;
    }
    proof {
        assert(dvr[0] == rest@[0]@);
        assert(dvr[1] == rest@[1]@);
        if rest@.len() >= 3 {
            assert(dvr[2] == rest@[2]@);
        }
        if rest@.len() >= 4 {
            assert(dvr[3] == rest@[3]@);
        }
    }
    let locator = &rest[0];
    let value = &rest[1];
    let subaction: String = if rest.len() > 2 {
        rest[2].clone()
    } else {
        "click".to_owned()
    };
    let exact = ex_has_tok(rest, "--exact");
    if crate::strutil::tok_is(locator, "role") {
        Some(mk5(
            id,
            "getbyrole",
            p_str("role", value),
            p_str_owned("subaction", subaction),
            p_join("value", rest, 3),
            p_after("name", rest, "--name"),
            p_bool("exact", exact),
        ))
    } else if crate::strutil::tok_is(locator, "text") {
        Some(mk3(
            id,
            "getbytext",
            p_str("text", value),
            p_str_owned("subaction", subaction),
            p_bool("exact", exact),
        ))
    } else if crate::strutil::tok_is(locator, "label") {
        Some(mk4(
            id,
            "getbylabel",
            p_str("label", value),
            p_str_owned("subaction", subaction),
            p_join("value", rest, 3),
            p_bool("exact", exact),
        ))
    } else if crate::strutil::tok_is(locator, "placeholder") {
        Some(mk4(
            id,
            "getbyplaceholder",
            p_str("placeholder", value),
            p_str_owned("subaction", subaction),
            p_join("value", rest, 3),
            p_bool("exact", exact),
        ))
    } else if crate::strutil::tok_is(locator, "alt") {
        Some(mk3(
            id,
            "getbyalttext",
            p_str("text", value),
            p_str_owned("subaction", subaction),
            p_bool("exact", exact),
        ))
    } else if crate::strutil::tok_is(locator, "title") {
        Some(mk3(
            id,
            "getbytitle",
            p_str("text", value),
            p_str_owned("subaction", subaction),
            p_bool("exact", exact),
        ))
    } else if crate::strutil::tok_is(locator, "testid") {
        Some(mk3(
            id,
            "getbytestid",
            p_str("testId", value),
            p_str_owned("subaction", subaction),
            p_join("value", rest, 3),
        ))
    } else if crate::strutil::tok_is(locator, "first") {
        Some(mk4(
            id,
            "nth",
            p_str("selector", value),
            p_num_i32("index", 0),
            p_str_owned("subaction", subaction),
            p_join("value", rest, 3),
        ))
    } else if crate::strutil::tok_is(locator, "last") {
        Some(mk4(
            id,
            "nth",
            p_str("selector", value),
            p_num_i32("index", -1),
            p_str_owned("subaction", subaction),
            p_join("value", rest, 3),
        ))
    } else if crate::strutil::tok_is(locator, "nth") {
        match crate::numtext::parse_i32(value.as_str()) {
            None => None,
            Some(idx) => {
                if rest.len() >= 3 {
                    let sub: String = if rest.len() > 3 {
                        rest[3].clone()
                    } else {
                        "click".to_owned()
                    };
                    Some(mk4(
                        id,
                        "nth",
                        p_str("selector", &rest[2]),
                        p_num_i32("index", idx),
                        p_str_owned("subaction", sub),
                        p_join("value", rest, 4),
                    ))
                } else {
                    None
                }
            },
        }
    } else {
        None
    }
}

fn e_mouse(rest: &Vec<String>, id: String) -> (r: Option<Request>)
    ensures
        match r {
            None => spec_mouse(rest.deep_view(), id@) is None,
            Some(q) => spec_mouse(rest.deep_view(), id@) == Some(q@),
        },
{
    let ghost dvr = rest.deep_view();
    if rest.len() == 0 {
        return None;
    }
    proof {
        assert(dvr[0] == rest@[0]@);
        if rest@.len() >= 2 {
            assert(dvr[1] == rest@[1]@);
        }
        if rest@.len() >= 3 {
            assert(dvr[2] == rest@[2]@);
        }
    }
    let sub = &rest[0];
    if crate::strutil::tok_is(sub, "move") {
        if rest.len() >= 3 {
            let x = crate::numtext::parse_i32(rest[1].as_str());
            let y = crate::numtext::parse_i32(rest[2].as_str());
            match (x, y) {
                (Some(xv), Some(yv)) => Some(mk2(
                    id,
                    "mousemove",
                    p_num_i32("x", xv),
                    p_num_i32("y", yv),
                )),
                _ => None,
            }
        } else {
            None
        }
    } else if crate::strutil::tok_is(sub, "down") {
        let b: (String, Json) = if rest.len() > 1 {
            p_str("button", &rest[1])
        } else {
            p_str_owned("button", "left".to_owned())
        };
        Some(mk1(id, "mousedown", b))
    } else if crate::strutil::tok_is(sub, "up") {
        let b: (String, Json) = if rest.len() > 1 {
            p_str("button", &rest[1])
        } else {
            p_str_owned("button", "left".to_owned())
        };
        Some(mk1(id, "mouseup", b))
    } else if crate::strutil::tok_is(sub, "wheel") {
        let dy: i32 = if rest.len() > 1 {
            match crate::numtext::parse_i32(rest[1].as_str()) {
                Some(v) => v,
                None => 100,
            }
        } else {
            100
        };
        let dx: i32 = if rest.len() > 2 {
            match crate::numtext::parse_i32(rest[2].as_str()) {
                Some(v) => v,
                None => 0,
            }
        } else {
            0
        };
        Some(mk2(id, "mousewheel", p_num_i32("deltaX", dx), p_num_i32("deltaY", dy)))
    } else {
        None
    }
}

#[verifier::rlimit(60)]
fn e_set(rest: &Vec<String>, id: String) -> (r: Option<Request>)
    ensures
        match r {
            None => spec_set(rest.deep_view(), id@) is None,
            Some(q) => spec_set(rest.deep_view(), id@) == Some(q@),
        },
{
    let ghost dvr = rest.deep_view();
    if rest.len() == 0 {
        return None;
    }
    proof {
        assert(dvr[0] == rest@[0]@);
        if rest@.len() >= 2 {
            assert(dvr[1] == rest@[1]@);
        }
        if rest@.len() >= 3 {
            assert(dvr[2] == rest@[2]@);
        }
    }
    let sub = &rest[0];
    if crate::strutil::tok_is(sub, "viewport") {
        if rest.len() >= 3 {
            let w = crate::numtext::parse_i32(rest[1].as_str());
            let h = crate::numtext::parse_i32(rest[2].as_str());
            match (w, h) {
                (Some(wv), Some(hv)) => Some(mk2(
                    id,
                    "viewport",
                    p_num_i32("width", wv),
                    p_num_i32("height", hv),
                )),
                _ => None,
            }
        } else {
            None
        }
    } else if crate::strutil::tok_is(sub, "device") {
        if rest.len() >= 2 { Some(mk1(id, "device", p_str("device", &rest[1]))) } else { None }
    } else if crate::strutil::tok_is(sub, "geo") || crate::strutil::tok_is(sub, "geolocation") {
        if rest.len() >= 3 && crate::numtext::is_decimal_token(rest[1].as_str())
            && crate::numtext::is_decimal_token(rest[2].as_str()) {
            let lat = ("latitude".to_owned(), Json::Num(rest[1].clone()));
            let lng = ("longitude".to_owned(), Json::Num(rest[2].clone()));
            Some(mk2(id, "geolocation", lat, lng))
        } else {
            None
        }
    } else if crate::strutil::tok_is(sub, "offline") {
        let off: bool = if rest.len() > 1 {
            !(crate::strutil::tok_is(&rest[1], "off") || crate::strutil::tok_is(&rest[1], "false"))
        } else {
            true
        };
        Some(mk1(id, "offline", p_bool("offline", off)))
    } else if crate::strutil::tok_is(sub, "headers") {
        if rest.len() >= 2 { Some(mk1(id, "headers", p_str("headers", &rest[1]))) } else { None }
    } else if crate::strutil::tok_is(sub, "credentials") || crate::strutil::tok_is(sub, "auth") {
        if rest.len() >= 3 {
            Some(mk2(id, "credentials", p_str("username", &rest[1]), p_str("password", &rest[2])))
        } else {
            None
        }
    } else if crate::strutil::tok_is(sub, "media") {
        let color: String = if ex_has_tok(rest, "dark") {
            "dark".to_owned()
        } else if ex_has_tok(rest, "light") {
            "light".to_owned()
        } else {
            "no-preference".to_owned()
        };
        let reduced = ex_has_tok(rest, "reduced-motion");
        Some(mk2(
            id,
            "media",
            p_str_owned("colorScheme", color),
            p_bool("reducedMotion", reduced),
        ))
    } else {
        None
    }
}

fn e_network(rest: &Vec<String>, id: String) -> (r: Option<Request>)
    ensures
        match r {
            None => spec_network(rest.deep_view(), id@) is None,
            Some(q) => spec_network(rest.deep_view(), id@) == Some(q@),
        },
{
    let ghost dvr = rest.deep_view();
    if rest.len() == 0 {
        return None;
    }
    proof {
        assert(dvr[0] == rest@[0]@);
        if rest@.len() >= 2 {
            assert(dvr[1] == rest@[1]@);
        }
    }
    let sub = &rest[0];
    if crate::strutil::tok_is(sub, "route") {
        if rest.len() >= 2 {
            Some(mk3(
                id,
                "route",
                p_str("url", &rest[1]),
                p_bool("abort", ex_has_tok(rest, "--abort")),
                p_after("body", rest, "--body"),
            ))
        } else {
            None
        }
    } else if crate::strutil::tok_is(sub, "unroute") {
        Some(mk1(id, "unroute", p_opt("url", rest, 1)))
    } else if crate::strutil::tok_is(sub, "requests") {
        Some(mk2(
            id,
            "requests",
            p_bool("clear", ex_has_tok(rest, "--clear")),
            p_after("filter", rest, "--filter"),
        ))
    } else {
        None
    }
}

fn e_storage(rest: &Vec<String>, id: String) -> (r: Option<Request>)
    ensures
        match r {
            None => spec_storage(rest.deep_view(), id@) is None,
            Some(q) => spec_storage(rest.deep_view(), id@) == Some(q@),
        },
{
    let ghost dvr = rest.deep_view();
    if rest.len() == 0 {
        return None;
    }
    proof {
        assert(dvr[0] == rest@[0]@);
        if rest@.len() >= 2 {
            assert(dvr[1] == rest@[1]@);
        }
    }
    if crate::strutil::tok_is(&rest[0], "local") || crate::strutil::tok_is(&rest[0], "session") {
        let op: String = if rest.len() > 1 {
            rest[1].clone()
        } else {
            "get".to_owned()
        };
        Some(mk4(
            id,
            "storage",
            p_str("storageType", &rest[0]),
            p_str_owned("operation", op),
            p_opt("key", rest, 2),
            p_opt("value", rest, 3),
        ))
    } else {
        None
    }
}

fn e_cookies(rest: &Vec<String>, id: String) -> (r: Option<Request>)
    ensures
        match r {
            None => spec_cookies(rest.deep_view(), id@) is None,
            Some(q) => spec_cookies(rest.deep_view(), id@) == Some(q@),
        },
{
    let ghost dvr = rest.deep_view();
    proof {
        if rest@.len() >= 1 {
            assert(dvr[0] == rest@[0]@);
        }
        if rest@.len() >= 2 {
            assert(dvr[1] == rest@[1]@);
        }
        if rest@.len() >= 3 {
            assert(dvr[2] == rest@[2]@);
        }
    }
    let isget = if rest.len() == 0 {
        true
    } else {
        crate::strutil::tok_is(&rest[0], "get")
    };
    if isget {
        Some(mk2(id, "cookies", p_str_owned("operation", "get".to_owned()), p_opt("name", rest, 1)))
    } else if crate::strutil::tok_is(&rest[0], "set") {
        if rest.len() >= 3 {
            Some(mk3(
                id,
                "cookies",
                p_str_owned("operation", "set".to_owned()),
                p_str("name", &rest[1]),
                p_str("value", &rest[2]),
            ))
        } else {
            None
        }
    } else if crate::strutil::tok_is(&rest[0], "clear") {
        Some(mk1(id, "cookies", p_str_owned("operation", "clear".to_owned())))
    } else {
        Some(mk1(id, "cookies", p_str_owned("operation", "get".to_owned())))
    }
}

fn e_tab(rest: &Vec<String>, id: String) -> (r: Option<Request>)
    ensures
        match r {
            None => spec_tab(rest.deep_view(), id@) is None,
            Some(q) => spec_tab(rest.deep_view(), id@) == Some(q@),
        },
{
    let ghost dvr = rest.deep_view();
    if rest.len() == 0 {
        return Some(mk0(id, "tab_list"));
    }
    proof {
        assert(dvr[0] == rest@[0]@);
        if rest@.len() >= 2 {
            assert(dvr[1] == rest@[1]@);
        }
    }
    let sub = &rest[0];
    if crate::strutil::tok_is(sub, "new") {
        Some(mk1(id, "tab_new", p_opt("url", rest, 1)))
    } else if crate::strutil::tok_is(sub, "list") {
        Some(mk0(id, "tab_list"))
    } else if crate::strutil::tok_is(sub, "close") {
        let idx: (String, Json) = if rest.len() > 1 {
            match crate::numtext::parse_i32(rest[1].as_str()) {
                Some(v) => p_num_i32("index", v),
                None => ("index".to_owned(), Json::Null),
            }
        } else {
            ("index".to_owned(), Json::Null)
        };
        Some(mk1(id, "tab_close", idx))
    } else {
        match crate::numtext::parse_i32(sub.as_str()) {
            Some(v) => Some(mk1(id, "tab_switch", p_num_i32("index", v))),
            None => Some(mk0(id, "tab_list")),
        }
    }
}

fn e_frame(rest: &Vec<String>, id: String) -> (r: Option<Request>)
    ensures
        match r {
            None => spec_frame(rest.deep_view(), id@) is None,
            Some(q) => spec_frame(rest.deep_view(), id@) == Some(q@),
        },
{
    let ghost dvr = rest.deep_view();
    if rest.len() == 0 {
        return None;
    }
    proof {
        assert(dvr[0] == rest@[0]@);
    }
    if crate::strutil::tok_is(&rest[0], "main") {
        Some(mk0(id, "frame_main"))
    } else {
        Some(mk1(id, "frame", p_str("selector", &rest[0])))
    }
}

fn e_dialog(rest: &Vec<String>, id: String) -> (r: Option<Request>)
    ensures
        match r {
            None => spec_dialog(rest.deep_view(), id@) is None,
            Some(q) => spec_dialog(rest.deep_view(), id@) == Some(q@),
        },
{
    let ghost dvr = rest.deep_view();
    if rest.len() == 0 {
        return None;
    }
    proof {
        assert(dvr[0] == rest@[0]@);
        if rest@.len() >= 2 {
            assert(dvr[1] == rest@[1]@);
        }
    }
    if crate::strutil::tok_is(&rest[0], "accept") {
        Some(mk2(
            id,
            "dialog",
            p_str_owned("response", "accept".to_owned()),
            p_opt("promptText", rest, 1),
        ))
    } else if crate::strutil::tok_is(&rest[0], "dismiss") {
        Some(mk1(id, "dialog", p_str_owned("response", "dismiss".to_owned())))
    } else {
        None
    }
}

fn e_trace(rest: &Vec<String>, id: String) -> (r: Option<Request>)
    ensures
        match r {
            None => spec_trace(rest.deep_view(), id@) is None,
            Some(q) => spec_trace(rest.deep_view(), id@) == Some(q@),
        },
{
    let ghost dvr = rest.deep_view();
    if rest.len() == 0 {
        return None;
    }
    proof {
        assert(dvr[0] == rest@[0]@);
        if rest@.len() >= 2 {
            assert(dvr[1] == rest@[1]@);
        }
    }
    if crate::strutil::tok_is(&rest[0], "start") {
        Some(mk1(id, "trace_start", p_opt("path", rest, 1)))
    } else if crate::strutil::tok_is(&rest[0], "stop") {
        Some(mk1(id, "trace_stop", p_opt("path", rest, 1)))
    } else {
        None
    }
}

fn e_state(rest: &Vec<String>, id: String) -> (r: Option<Request>)
    ensures
        match r {
            None => spec_state(rest.deep_view(), id@) is None,
            Some(q) => spec_state(rest.deep_view(), id@) == Some(q@),
        },
{
    let ghost dvr = rest.deep_view();
    if rest.len() == 0 {
        return None;
    }
    proof {
        assert(dvr[0] == rest@[0]@);
        if rest@.len() >= 2 {
            assert(dvr[1] == rest@[1]@);
        }
    }
    if crate::strutil::tok_is(&rest[0], "save") {
        if rest.len() >= 2 { Some(mk1(id, "state_save", p_str("path", &rest[1]))) } else { None }
    } else if crate::strutil::tok_is(&rest[0], "load") {
        if rest.len() >= 2 { Some(mk1(id, "state_load", p_str("path", &rest[1]))) } else { None }
    } else {
        None
    }
}

proof fn lemma_jvm_push(m: Seq<(String, Json)>, p: (String, Json))
    ensures
        jv_membs(m.push(p)) == jv_membs(m).push((p.0@, p.1@)),
{
    lemma_jv_membs(m);
    lemma_jv_membs(m.push(p));
    assert(jv_membs(m.push(p)) =~= jv_membs(m).push((p.0@, p.1@)));
}

#[verifier::loop_isolation(false)]
#[verifier::rlimit(60)]
fn e_snapshot(rest: &Vec<String>, id: String) -> (r: Request)
    ensures
        r@ == (RequestV {
            id: id@,
            action: "snapshot"@,
            params: snap_scan(rest.deep_view(), 0, Seq::empty()),
        }),
{
    let ghost dvr = rest.deep_view();
    let mut params: Vec<(String, Json)> = Vec::new();
    proof {
        lemma_jv_membs(params@);
        assert(jv_membs(params@) =~= Seq::<(Seq<char>, JsonV)>::empty());
    }
    let mut i: usize = 0;
    while i < rest.len()
        invariant
            0 <= i <= rest.len(),
            snap_scan(dvr, 0, Seq::empty()) == snap_scan(dvr, i as int, jv_membs(params@)),
        decreases rest.len() - i,
    {
        proof {
            assert(dvr[i as int] == rest@[i as int]@);
            if i + 1 < rest@.len() {
                assert(dvr[i + 1 as int] == rest@[i + 1 as int]@);
            }
        }
        let t = &rest[i];
        if crate::strutil::tok_is(t, "-i") || crate::strutil::tok_is(t, "--interactive") {
            let p = p_bool("interactive", true);
            proof {
                lemma_jvm_push(params@, p);
            }
            params.push(p);
        } else if crate::strutil::tok_is(t, "-c") || crate::strutil::tok_is(t, "--compact") {
            let p = p_bool("compact", true);
            proof {
                lemma_jvm_push(params@, p);
            }
            params.push(p);
        } else if crate::strutil::tok_is(t, "-d") || crate::strutil::tok_is(t, "--depth") {
            if i + 1 < rest.len() {
                match crate::numtext::parse_i32(rest[i + 1].as_str()) {
                    Some(n) => {
                        let p = p_num_i32("maxDepth", n);
                        proof {
                            lemma_jvm_push(params@, p);
                        }
                        params.push(p);
                        i = i + 1;
                    },
                    None => {},
                }
            }
        } else if crate::strutil::tok_is(t, "-s") || crate::strutil::tok_is(t, "--selector") {
            if i + 1 < rest.len() {
                let p = p_str("selector", &rest[i + 1]);
                proof {
                    lemma_jvm_push(params@, p);
                }
                params.push(p);
                i = i + 1;
            }
        }
        i = i + 1;
    }
    Request { id, action: "snapshot".to_owned(), params }
}

/// Builds the upload file list: each trailing token as a string value.
#[verifier::loop_isolation(false)]
fn e_files(rest: &Vec<String>) -> (r: Json)
    ensures
        r@ == JsonV::Arr(strs_from(rest.deep_view(), 1)),
{
    let ghost dvr = rest.deep_view();
    let mut files: Vec<Json> = Vec::new();
    let mut i: usize = 1;
    while i < rest.len()
        invariant
            1 <= i <= rest.len() || (rest.len() == 0 && i == 1),
            strs_from(dvr, 1) == jv_seq(files@) + strs_from(dvr, i as int),
        decreases rest.len() - i,
    {
        proof {
            assert(dvr[i as int] == rest@[i as int]@);
        }
        let p = Json::Str(rest[i].clone());
        proof {
            lemma_jv_seq(files@);
            lemma_jv_seq(files@.push(p));
            assert(jv_seq(files@.push(p)) =~= jv_seq(files@).push(p@));
            assert(jv_seq(files@) + (seq![JsonV::Str(dvr[i as int])] + strs_from(
                dvr,
                i + 1 as int,
            )) =~= jv_seq(files@.push(p)) + strs_from(dvr, i + 1 as int));
        }
        files.push(p);
        i = i + 1;
    }
    proof {
        assert(strs_from(dvr, 1) =~= jv_seq(files@));
    }
    Json::Arr(files)
}

/// Maps the cleaned tokens and flags to exactly one request, as
/// [`spec_translate`] says; `id` is the correlation id to carry.
#[verifier::rlimit(100)]
pub fn translate(args: &Vec<String>, full: bool, id: String) -> (r: Option<Request>)
    ensures
        match r {
            None => spec_translate(args.deep_view(), full, id@) is None,
            Some(q) => spec_translate(args.deep_view(), full, id@) == Some(q@),
        },
{
    let ghost dv = args.deep_view();
    if args.len() == 0 {
        return None;
    }
    let cmd = &args[0];
    proof {
        assert(dv[0] == args@[0]@);
    }
    let mut rest: Vec<String> = Vec::new();
    let mut k: usize = 1;
    #[verifier::loop_isolation(false)]
    while k < args.len()
        invariant
            1 <= k <= args.len(),
            rest.deep_view() == dv.subrange(1, k as int),
        decreases args.len() - k,
    {
        rest.push(args[k].clone());
        proof {
            assert(rest.deep_view() =~= dv.subrange(1, k + 1 as int));
        }
        k = k + 1;
    }
    proof {
        assert(rest.deep_view() =~= dv.drop_first());
    }
    let ghost dvr = rest.deep_view();
    proof {
        if rest@.len() >= 1 {
            assert(dvr[0] == rest@[0]@);
        }
        if rest@.len() >= 2 {
            assert(dvr[1] == rest@[1]@);
        }
    }
    if crate::strutil::tok_is(cmd, "open") || crate::strutil::tok_is(cmd, "goto")
        || crate::strutil::tok_is(cmd, "navigate") {
        if rest.len() >= 1 {
            let url: String = if ex_starts_http(&rest[0]) {
                rest[0].clone()
            } else {
                let mut out = crate::strutil::str_to_chars("https://");
                let mut vcs = crate::strutil::str_to_chars(rest[0].as_str());
                out.append(&mut vcs);
                crate::strutil::chars_to_string(&out)
            };
            Some(mk1(id, "navigate", p_str_owned("url", url)))
        } else {
            None
        }
    } else if crate::strutil::tok_is(cmd, "back") {
        Some(mk0(id, "back"))
    } else if crate::strutil::tok_is(cmd, "forward") {
        Some(mk0(id, "forward"))
    } else if crate::strutil::tok_is(cmd, "reload") {
        Some(mk0(id, "reload"))
    } else if crate::strutil::tok_is(cmd, "click") {
        if rest.len() >= 1 { Some(mk1(id, "click", p_str("selector", &rest[0]))) } else { None }
    } else if crate::strutil::tok_is(cmd, "dblclick") {
        if rest.len() >= 1 { Some(mk1(id, "dblclick", p_str("selector", &rest[0]))) } else { None }
    } else if crate::strutil::tok_is(cmd, "fill") {
        if rest.len() >= 1 {
            Some(mk2(
                id,
                "fill",
                p_str("selector", &rest[0]),
                p_str_owned("value", join_from(&rest, 1)),
            ))
        } else {
            None
        }
    } else if crate::strutil::tok_is(cmd, "type") {
        if rest.len() >= 1 {
            Some(mk2(
                id,
                "type",
                p_str("selector", &rest[0]),
                p_str_owned("text", join_from(&rest, 1)),
            ))
        } else {
            None
        }
    } else if crate::strutil::tok_is(cmd, "hover") {
        if rest.len() >= 1 { Some(mk1(id, "hover", p_str("selector", &rest[0]))) } else { None }
    } else if crate::strutil::tok_is(cmd, "focus") {
        if rest.len() >= 1 { Some(mk1(id, "focus", p_str("selector", &rest[0]))) } else { None }
    } else if crate::strutil::tok_is(cmd, "check") {
        if rest.len() >= 1 { Some(mk1(id, "check", p_str("selector", &rest[0]))) } else { None }
    } else if crate::strutil::tok_is(cmd, "uncheck") {
        if rest.len() >= 1 { Some(mk1(id, "uncheck", p_str("selector", &rest[0]))) } else { None }
    } else if crate::strutil::tok_is(cmd, "select") {
        if rest.len() >= 2 {
            Some(mk2(id, "select", p_str("selector", &rest[0]), p_str("value", &rest[1])))
        } else {
            None
        }
    } else if crate::strutil::tok_is(cmd, "drag") {
        if rest.len() >= 2 {
            Some(mk2(id, "drag", p_str("source", &rest[0]), p_str("target", &rest[1])))
        } else {
            None
        }
    } else if crate::strutil::tok_is(cmd, "upload") {
        if rest.len() >= 1 {
            let files = e_files(&rest);
            Some(mk2(id, "upload", p_str("selector", &rest[0]), ("files".to_owned(), files)))
        } else {
            None
        }
    } else if crate::strutil::tok_is(cmd, "press") || crate::strutil::tok_is(cmd, "key") {
        if rest.len() >= 1 { Some(mk1(id, "press", p_str("key", &rest[0]))) } else { None }
    } else if crate::strutil::tok_is(cmd, "keydown") {
        if rest.len() >= 1 { Some(mk1(id, "keydown", p_str("key", &rest[0]))) } else { None }
    } else if crate::strutil::tok_is(cmd, "keyup") {
        if rest.len() >= 1 { Some(mk1(id, "keyup", p_str("key", &rest[0]))) } else { None }
    } else if crate::strutil::tok_is(cmd, "scroll") {
        let dir: (String, Json) = if rest.len() > 0 {
            p_str("direction", &rest[0])
        } else {
            p_str_owned("direction", "down".to_owned())
        };
        let amount: i32 = if rest.len() > 1 {
            match crate::numtext::parse_i32(rest[1].as_str()) {
                Some(v) => v,
                None => 300,
            }
        } else {
            300
        };
        Some(mk2(id, "scroll", dir, p_num_i32("amount", amount)))
    } else if crate::strutil::tok_is(cmd, "scrollintoview") || crate::strutil::tok_is(
        cmd,
        "scrollinto",
    ) {
        if rest.len() >= 1 {
            Some(mk1(id, "scrollintoview", p_str("selector", &rest[0])))
        } else {
            None
        }
    } else if crate::strutil::tok_is(cmd, "wait") {
        if rest.len() >= 1 {
            match crate::numtext::parse_u64(rest[0].as_str()) {
                Some(ms) => {
                    let lit = crate::numtext::u64_to_string(ms);
                    Some(mk1(id, "wait", ("timeout".to_owned(), Json::Num(lit))))
                },
                None => Some(mk1(id, "wait", p_str("selector", &rest[0]))),
            }
        } else {
            None
        }
    } else if crate::strutil::tok_is(cmd, "screenshot") {
        Some(mk2(id, "screenshot", p_opt("path", &rest, 0), p_bool("fullPage", full)))
    } else if crate::strutil::tok_is(cmd, "pdf") {
        if rest.len() >= 1 { Some(mk1(id, "pdf", p_str("path", &rest[0]))) } else { None }
    } else if crate::strutil::tok_is(cmd, "snapshot") {
        Some(e_snapshot(&rest, id))
    } else if crate::strutil::tok_is(cmd, "eval") {
        Some(mk1(id, "evaluate", p_str_owned("script", join_from(&rest, 0))))
    } else if crate::strutil::tok_is(cmd, "close") || crate::strutil::tok_is(cmd, "quit")
        || crate::strutil::tok_is(cmd, "exit") {
        Some(mk0(id, "close"))
    } else if crate::strutil::tok_is(cmd, "get") {
        e_get(&rest, id)
    } else if crate::strutil::tok_is(cmd, "is") {
        e_is(&rest, id)
    } else if crate::strutil::tok_is(cmd, "find") {
        e_find(&rest, id)
    } else if crate::strutil::tok_is(cmd, "mouse") {
        e_mouse(&rest, id)
    } else if crate::strutil::tok_is(cmd, "set") {
        e_set(&rest, id)
    } else if crate::strutil::tok_is(cmd, "network") {
        e_network(&rest, id)
    } else if crate::strutil::tok_is(cmd, "storage") {
        e_storage(&rest, id)
    } else if crate::strutil::tok_is(cmd, "cookies") {
        e_cookies(&rest, id)
    } else if crate::strutil::tok_is(cmd, "tab") {
        e_tab(&rest, id)
    } else if crate::strutil::tok_is(cmd, "window") {
        if rest.len() >= 1 && crate::strutil::tok_is(&rest[0], "new") {
            Some(mk0(id, "window_new"))
        } else {
            None
        }
    } else if crate::strutil::tok_is(cmd, "frame") {
        e_frame(&rest, id)
    } else if crate::strutil::tok_is(cmd, "dialog") {
        e_dialog(&rest, id)
    } else if crate::strutil::tok_is(cmd, "trace") {
        e_trace(&rest, id)
    } else if crate::strutil::tok_is(cmd, "console") {
        Some(mk1(id, "console", p_bool("clear", ex_has_tok(&rest, "--clear"))))
    } else if crate::strutil::tok_is(cmd, "errors") {
        Some(mk1(id, "errors", p_bool("clear", ex_has_tok(&rest, "--clear"))))
    } else if crate::strutil::tok_is(cmd, "highlight") {
        if rest.len() >= 1 { Some(mk1(id, "highlight", p_str("selector", &rest[0]))) } else { None }
    } else if crate::strutil::tok_is(cmd, "state") {
        e_state(&rest, id)
    } else {
        None
    }
}

} // verus!
