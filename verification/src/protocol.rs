//! The wire protocol: framing a request as one JSON line, reading a
//! response back out of one JSON line, and the per-invocation
//! correlation id. The socket itself is the caller's affair; everything
//! here is a pure value-to-value mapping.

use vstd::prelude::*;
use crate::json::{Json, JsonV, jv_membs, lemma_jv_membs, enc, parse_json, wf};
use crate::translate::{Request, RequestV};

verus! {

broadcast use vstd::seq::group_seq_axioms;

/// One response from the worker.
pub struct Response {
    pub success: bool,
    pub data: Option<Json>,
    pub error: Option<String>,
}

/// The mathematical form of [`Response`].
#[verifier::ext_equal]
pub struct ResponseV {
    pub success: bool,
    pub data: Option<JsonV>,
    pub error: Option<Seq<char>>,
}

impl View for Response {
    type V = ResponseV;

    open spec fn view(&self) -> ResponseV {
        ResponseV {
            success: self.success,
            data: match self.data {
                Some(d) => Some(d@),
                None => None,
            },
            error: match self.error {
                Some(e) => Some(e@),
                None => None,
            },
        }
    }
}

/// The wire value a request stands for: an object carrying `id`, then
/// `action`, then the action's parameters, in order.
pub open spec fn req_jv(r: RequestV) -> JsonV {
    JsonV::Obj(
        seq![("id"@, JsonV::Str(r.id)), ("action"@, JsonV::Str(r.action))] + r.params,
    )
}

/// Frames a request as its wire line: the encoded object and the
/// newline that ends the frame.
pub fn encode_request(req: &Request) -> (r: String)
    ensures
        r@ == enc(req_jv(req@)) + seq!['\n'],
{
    let ghost goal = seq![("id"@, JsonV::Str(req@.id)), ("action"@, JsonV::Str(req@.action))]
        + req@.params;
    let mut membs: Vec<(String, Json)> = Vec::new();
    membs.push(("id".to_owned(), Json::Str(req.id.clone())));
    membs.push(("action".to_owned(), Json::Str(req.action.clone())));
    let mut i: usize = 0;
    #[verifier::loop_isolation(false)]
    while i < req.params.len()
        invariant
            0 <= i <= req.params.len(),
            membs@.len() == i + 2,
            membs@[0].0@ == "id"@ && membs@[0].1@ == JsonV::Str(req@.id),
            membs@[1].0@ == "action"@ && membs@[1].1@ == JsonV::Str(req@.action),
            forall|k: int| 2 <= k < i + 2 ==> (#[trigger] membs@[k]).0@ == req.params@[k
                - 2].0@ && membs@[k].1@ == req.params@[k - 2].1@,
        decreases req.params.len() - i,
    {
        let ks = req.params[i].0.clone();
        let vs = req.params[i].1.clone();
        membs.push((ks, vs));
        i = i + 1;
    }
    proof {
        lemma_jv_membs(membs@);
        lemma_jv_membs(req.params@);
        assert(jv_membs(membs@) =~= goal);
    }
    let obj = Json::Obj(membs);
    let mut cs = obj.encode();
    cs.push('\n');
    let r = crate::strutil::chars_to_string(&cs);
    proof {
        assert(r@ =~= enc(req_jv(req@)) + seq!['\n']);
    }
    r
}

/// The first value stored under `k`, if any.
pub open spec fn obj_lookup(m: Seq<(Seq<char>, JsonV)>, k: Seq<char>) -> Option<JsonV>
    decreases m.len(),
{
    if m.len() == 0 {
        None
    } else if m[0].0 == k {
        Some(m[0].1)
    } else {
        obj_lookup(m.drop_first(), k)
    }
}

/// Looks a key up in an object's members, cloning the value found.
#[verifier::loop_isolation(false)]
pub fn lookup_clone(m: &Vec<(String, Json)>, k: &str) -> (r: Option<Json>)
    ensures
        match r {
            Some(v) => obj_lookup(jv_membs(m@), k@) == Some(v@),
            None => obj_lookup(jv_membs(m@), k@) is None,
        },
{
    let ghost mv = jv_membs(m@);
    proof {
        lemma_jv_membs(m@);
        assert(mv.subrange(0, mv.len() as int) =~= mv);
    }
    let mut i: usize = 0;
    while i < m.len()
        invariant
            0 <= i <= m.len(),
            obj_lookup(mv, k@) == obj_lookup(mv.subrange(i as int, mv.len() as int), k@),
        decreases m.len() - i,
    {
        proof {
            let cur = mv.subrange(i as int, mv.len() as int);
            assert(cur[0] == mv[i as int]);
            assert(cur.drop_first() =~= mv.subrange(i + 1 as int, mv.len() as int));
        }
        if crate::strutil::tok_is(&m[i].0, k) {
            return Some(m[i].1.clone());
        }
        i = i + 1;
    }
    proof {
        assert(mv.subrange(mv.len() as int, mv.len() as int) =~= Seq::<(Seq<char>,
            JsonV)>::empty());
    }
    None
}

/// What a decoded line must look like to be a response: an object whose
/// `success` member is a boolean; `data` defaults to nothing when
/// absent or null; `error` must be a string when present (null and
/// absence both mean no message).
pub open spec fn spec_response_of(v: JsonV) -> Option<ResponseV> {
    match v {
        JsonV::Obj(m) => {
            match obj_lookup(m, "success"@) {
                Some(JsonV::Bool(b)) => {
                    let data = match obj_lookup(m, "data"@) {
                        None => Option::<JsonV>::None,
                        Some(JsonV::Null) => Option::<JsonV>::None,
                        Some(d) => Option::<JsonV>::Some(d),
                    };
                    match obj_lookup(m, "error"@) {
                        None => Some(ResponseV { success: b, data, error: None }),
                        Some(JsonV::Null) => Some(ResponseV { success: b, data, error: None }),
                        Some(JsonV::Str(e)) => Some(
                            ResponseV { success: b, data, error: Some(e) },
                        ),
                        Some(_) => None,
                    }
                },
                _ => None,
            }
        },
        _ => None,
    }
}

/// What decoding a response line means: the line parses as one JSON
/// value with nothing but whitespace around it, and that value has the
/// response shape.
pub open spec fn spec_decode_response(line: Seq<char>) -> Option<ResponseV> {
    match parse_json(line) {
        None => None,
        Some(v) => spec_response_of(v),
    }
}

/// Decodes one response line, exactly as [`spec_decode_response`] says;
/// anything else is an invalid response.
pub fn decode_response(line: &str) -> (r: Option<Response>)
    ensures
        match r {
            Some(resp) => spec_decode_response(line@) == Some(resp@),
            None => spec_decode_response(line@) is None,
        },
{
    let v = match crate::json::decode_json(line) {
        None => {
            return None;
        },
        Some(v) => v,
    };
    match v {
        Json::Obj(m) => {
            let success = match lookup_clone(&m, "success") {
                Some(Json::Bool(b)) => b,
                _ => {
                    return None;
                },
            };
            let data = match lookup_clone(&m, "data") {
                None => None,
                Some(Json::Null) => None,
                Some(d) => Some(d),
            };
            let error = match lookup_clone(&m, "error") {
                None => None,
                Some(Json::Null) => None,
                Some(Json::Str(e)) => Some(e),
                Some(_) => {
                    return None;
                },
            };
            Some(Response { success, data, error })
        },
        _ => None,
    }
}

/// The wire value a response prints as in JSON output mode: `success`,
/// then `data` and `error` where present.
pub open spec fn resp_jv(r: ResponseV) -> JsonV {
    JsonV::Obj(
        seq![("success"@, JsonV::Bool(r.success))] + (match r.data {
            Some(d) => seq![("data"@, d)],
            None => Seq::empty(),
        }) + (match r.error {
            Some(e) => seq![("error"@, JsonV::Str(e))],
            None => Seq::empty(),
        }),
    )
}

/// Re-encodes a response as one JSON line (without a trailing newline).
pub fn encode_response(resp: &Response) -> (r: String)
    ensures
        r@ == enc(resp_jv(resp@)),
{
    let mut membs: Vec<(String, Json)> = Vec::new();
    membs.push(("success".to_owned(), Json::Bool(resp.success)));
    match &resp.data {
        Some(d) => {
            membs.push(("data".to_owned(), d.clone()));
        },
        None => {},
    }
    match &resp.error {
        Some(e) => {
            membs.push(("error".to_owned(), Json::Str(e.clone())));
        },
        None => {},
    }
    proof {
        lemma_jv_membs(membs@);
        assert(jv_membs(membs@) =~= (match resp_jv(resp@) {
            JsonV::Obj(m) => m,
            _ => Seq::empty(),
        }));
    }
    let obj = Json::Obj(membs);
    let cs = obj.encode();
    crate::strutil::chars_to_string(&cs)
}

// ---------------------------------------------------------------------------
// Round trip
// ---------------------------------------------------------------------------

/// A request whose parameter values are well-formed wire values.
pub open spec fn wf_request(r: RequestV) -> bool {
    wf(req_jv(r))
}

/// Round trip over the wire format: decoding the encoded frame of any
/// well-formed request gives back exactly the request's object — the
/// same fields, the same values, in the same order.
pub proof fn lemma_request_round_trip(r: RequestV)
    requires
        wf_request(r),
    ensures
        parse_json(enc(req_jv(r))) == Some(req_jv(r)),
{
    crate::json::lemma_round_trip(req_jv(r));
}

proof fn lemma_wf_push(acc: Seq<(Seq<char>, JsonV)>, p: (Seq<char>, JsonV))
    requires
        forall|k: int| 0 <= k < acc.len() ==> wf(#[trigger] acc[k].1),
        wf(p.1),
    ensures
        forall|k: int| 0 <= k < acc.push(p).len() ==> wf(#[trigger] acc.push(p)[k].1),
{
    assert forall|k: int| 0 <= k < acc.push(p).len() implies wf(#[trigger] acc.push(p)[k].1) by {
        if k < acc.len() {
            assert(acc.push(p)[k] == acc[k]);
        } else {
            assert(acc.push(p)[k] == p);
        }
    }
}

proof fn lemma_strs_from_wf(toks: Seq<Seq<char>>, i: int)
    ensures
        crate::json::wf_seq(crate::translate::strs_from(toks, i)),
    decreases toks.len() - i,
{
    if 0 <= i < toks.len() {
        lemma_strs_from_wf(toks, i + 1);
        let s = crate::translate::strs_from(toks, i);
        assert(s[0] == JsonV::Str(toks[i]));
        assert(wf(s[0]));
        assert(s.drop_first() =~= crate::translate::strs_from(toks, i + 1));
        assert(crate::json::wf_seq(s.drop_first()));
        assert(crate::json::wf_seq(s));
    } else {
        assert(crate::translate::strs_from(toks, i) =~= Seq::<JsonV>::empty());
        assert(crate::json::wf_seq(Seq::<JsonV>::empty()));
        assert(crate::json::wf_seq(crate::translate::strs_from(toks, i)));
    }
}

proof fn lemma_snap_scan_wf(rest: Seq<Seq<char>>, i: int, acc: Seq<(Seq<char>, JsonV)>)
    requires
        forall|k: int| 0 <= k < acc.len() ==> wf(#[trigger] acc[k].1),
    ensures
        forall|k: int|
            0 <= k < crate::translate::snap_scan(rest, i, acc).len() ==> wf(
                #[trigger] crate::translate::snap_scan(rest, i, acc)[k].1,
            ),
    decreases rest.len() - i,
{
    let out = crate::translate::snap_scan(rest, i, acc);
    if !(0 <= i < rest.len()) {
        assert(out == acc);
    } else if rest[i] == "-i"@ || rest[i] == "--interactive"@ {
        let p = crate::translate::pb("interactive"@, true);
        lemma_wf_push(acc, p);
        lemma_snap_scan_wf(rest, i + 1, acc.push(p));
        assert(out == crate::translate::snap_scan(rest, i + 1, acc.push(p)));
    } else if rest[i] == "-c"@ || rest[i] == "--compact"@ {
        let p = crate::translate::pb("compact"@, true);
        lemma_wf_push(acc, p);
        lemma_snap_scan_wf(rest, i + 1, acc.push(p));
        assert(out == crate::translate::snap_scan(rest, i + 1, acc.push(p)));
    } else if rest[i] == "-d"@ || rest[i] == "--depth"@ {
        if i + 1 < rest.len() && crate::numtext::spec_parse_i32(rest[i + 1]) is Some {
            let p = crate::translate::pn(
                "maxDepth"@,
                crate::numtext::spec_parse_i32(rest[i + 1])->Some_0 as int,
            );
            crate::numtext::lemma_dec_int_valid(
                crate::numtext::spec_parse_i32(rest[i + 1])->Some_0 as int,
            );
            lemma_wf_push(acc, p);
            lemma_snap_scan_wf(rest, i + 2, acc.push(p));
            assert(out == crate::translate::snap_scan(rest, i + 2, acc.push(p)));
        } else {
            lemma_snap_scan_wf(rest, i + 1, acc);
            assert(out == crate::translate::snap_scan(rest, i + 1, acc));
        }
    } else if rest[i] == "-s"@ || rest[i] == "--selector"@ {
        if i + 1 < rest.len() {
            let p = crate::translate::ps("selector"@, rest[i + 1]);
            lemma_wf_push(acc, p);
            lemma_snap_scan_wf(rest, i + 2, acc.push(p));
            assert(out == crate::translate::snap_scan(rest, i + 2, acc.push(p)));
        } else {
            lemma_snap_scan_wf(rest, i + 1, acc);
            assert(out == crate::translate::snap_scan(rest, i + 1, acc));
        }
    } else {
        lemma_snap_scan_wf(rest, i + 1, acc);
        assert(out == crate::translate::snap_scan(rest, i + 1, acc));
    }
}

/// Every request the translator yields is well-formed, so the round
/// trip holds of each of them.
#[verifier::rlimit(100)]
pub proof fn lemma_translate_wf(args: Seq<Seq<char>>, full: bool, id: Seq<char>)
    ensures
        crate::translate::spec_translate(args, full, id) matches Some(r) ==> wf_request(r),
{
    let o = crate::translate::spec_translate(args, full, id);
    if o is Some && args.len() > 0 {
        let r = o->Some_0;
        let rest = args.drop_first();
        assert forall|n: int| crate::json::valid_num_lit(
            #[trigger] crate::numtext::dec_int(n),
        ) by {
            crate::numtext::lemma_dec_int_valid(n);
        }
        assert forall|n: nat| crate::json::valid_num_lit(
            #[trigger] crate::numtext::dec_digits(n),
        ) by {
            crate::numtext::lemma_dec_int_valid(n as int);
            assert(crate::numtext::dec_int(n as int) == crate::numtext::dec_digits(n));
        }
        assert forall|s: Seq<char>| #[trigger] crate::numtext::decimal_token(s) implies
            crate::json::valid_num_lit(s) by {
            crate::numtext::lemma_decimal_token_valid(s);
        }
        lemma_strs_from_wf(rest, 1);
        lemma_snap_scan_wf(rest, 0, Seq::empty());
        let m = seq![("id"@, JsonV::Str(r.id)), ("action"@, JsonV::Str(r.action))] + r.params;
        assert forall|j: int| 0 <= j < m.len() implies wf(#[trigger] m[j].1) by {
            if j < 2 {
                assert(m[j].1 is Str);
            } else {
                assert(m[j].1 == r.params[j - 2].1);
            }
        }
        crate::json::lemma_wf_membs(m);
        assert(crate::json::wf_membs(m));
        assert(wf(req_jv(r)));
    }
}

/// The round trip holds of every request the translator yields:
/// decoding its encoded frame gives back exactly its wire object.
pub proof fn lemma_translated_round_trip(args: Seq<Seq<char>>, full: bool, id: Seq<char>)
    ensures
        crate::translate::spec_translate(args, full, id) matches Some(r) ==> parse_json(
            enc(req_jv(r)),
        ) == Some(req_jv(r)),
{
    lemma_translate_wf(args, full, id);
    if crate::translate::spec_translate(args, full, id) is Some {
        lemma_request_round_trip(crate::translate::spec_translate(args, full, id)->Some_0);
    }
}

// ---------------------------------------------------------------------------
// Correlation ids
// ---------------------------------------------------------------------------

/// The shape of a generated correlation id: `r` followed by the decimal
/// digits of a number below one million.
pub open spec fn is_gen_id(s: Seq<char>) -> bool {
    exists|n: nat| n < 1000000 && s == seq!['r'] + crate::numtext::dec_digits(n)
}

/// Relies on `std::time::SystemTime::now` and
/// `duration_since(UNIX_EPOCH)`: the microseconds since the epoch, or
/// zero if the clock stands before it. Nothing is assumed of the value.
#[verifier::external_body]
fn now_micros() -> u128 {
    match std::time::SystemTime::now().duration_since(std::time::UNIX_EPOCH) {
        Ok(d) => d.as_micros(),
        Err(_) => 0,
    }
}

/// A fresh correlation id: time-derived, low-cardinality, unique enough
/// for one request per connection, and of the generated shape.
pub fn gen_id() -> (r: String)
    ensures
        is_gen_id(r@),
{
    let m = now_micros();
    let n: u64 = (m % 1000000u128) as u64;
    let digits = crate::numtext::u64_to_string(n);
    let mut out: Vec<char> = Vec::new();
    out.push('r');
    let mut dcs = crate::strutil::str_to_chars(digits.as_str());
    out.append(&mut dcs);
    let r = crate::strutil::chars_to_string(&out);
    proof {
        assert(r@ == seq!['r'] + crate::numtext::dec_digits(n as nat));
        assert(is_gen_id(r@));
    }
    r
}

/// Translates a command invocation into a request carrying a fresh
/// correlation id, or nothing when no mapping exists; which of the two
/// happens does not depend on the id.
pub fn parse_command(args: &Vec<String>, flags: &crate::flags::Flags) -> (r: Option<Request>)
    ensures
        match r {
            Some(q) => crate::translate::spec_translate(args.deep_view(), flags.full, q@.id)
                == Some(q@) && is_gen_id(q@.id),
            None => exists|idv: Seq<char>|
                is_gen_id(idv) && crate::translate::spec_translate(
                    args.deep_view(),
                    flags.full,
                    idv,
                ) is None,
        },
{
    let id = gen_id();
    let ghost idv = id@;
    let r = crate::translate::translate(args, flags.full, id);
    proof {
        if r is None {
            assert(is_gen_id(idv) && crate::translate::spec_translate(
                args.deep_view(),
                flags.full,
                idv,
            ) is None);
        }
    }
    r
}

} // verus!
