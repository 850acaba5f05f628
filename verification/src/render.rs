//! The response renderer: turns a decoded response and the output-mode
//! flag into the text for the standard stream and the text for the
//! error stream. Shape probing is first-match-wins over a fixed
//! priority order; markers and colouring are plain text here.

use vstd::prelude::*;
use crate::json::{Json, JsonV, jv_membs, jv_seq, lemma_jv_membs, lemma_jv_seq, enc};
use crate::protocol::{Response, ResponseV, resp_jv, obj_lookup, lookup_clone};

verus! {

broadcast use vstd::seq::group_seq_axioms;

/// What one invocation prints: the standard-stream text and the
/// error-stream text, each with its own line endings.
pub struct RenderOut {
    pub out: String,
    pub err: String,
}

/// An optionally signed run of digits: the number shapes printed bare.
pub open spec fn is_int_lit(l: Seq<char>) -> bool {
    let t = if l.len() > 0 && l[0] == '-' {
        l.drop_first()
    } else {
        l
    };
    t.len() > 0 && crate::numtext::all_digits(t)
}

/// The members of an object value; anything else has none.
pub open spec fn membs_of(d: JsonV) -> Seq<(Seq<char>, JsonV)> {
    match d {
        JsonV::Obj(m) => m,
        _ => Seq::empty(),
    }
}

pub open spec fn str_of(b: bool) -> Seq<char> {
    if b {
        "true"@
    } else {
        "false"@
    }
}

/// A string member, with a fallback.
pub open spec fn lk_str(m: Seq<(Seq<char>, JsonV)>, k: Seq<char>, dflt: Seq<char>) -> Seq<char> {
    match obj_lookup(m, k) {
        Some(JsonV::Str(s)) => s,
        _ => dflt,
    }
}

/// A boolean member, with a fallback.
pub open spec fn lk_bool(m: Seq<(Seq<char>, JsonV)>, k: Seq<char>, dflt: bool) -> bool {
    match obj_lookup(m, k) {
        Some(JsonV::Bool(b)) => b,
        _ => dflt,
    }
}

/// One line per tab: a marker on the active tab, the tab's position,
/// its title and its address.
pub open spec fn tab_lines(ts: Seq<JsonV>, i: int) -> Seq<char>
    decreases ts.len() - i,
{
    if !(0 <= i < ts.len()) {
        Seq::empty()
    } else {
        let m = membs_of(ts[i]);
        let marker: Seq<char> = if lk_bool(m, "active"@, false) {
            "->"@
        } else {
            "  "@
        };
        marker + " ["@ + crate::numtext::dec_digits(i as nat) + "] "@ + lk_str(
            m,
            "title"@,
            "Untitled"@,
        ) + " - "@ + lk_str(m, "url"@, Seq::empty()) + seq!['\n'] + tab_lines(ts, i + 1)
    }
}

/// One line per console entry: its level in brackets, then its text.
pub open spec fn log_lines(ls: Seq<JsonV>, i: int) -> Seq<char>
    decreases ls.len() - i,
{
    if !(0 <= i < ls.len()) {
        Seq::empty()
    } else {
        let m = membs_of(ls[i]);
        seq!['['] + lk_str(m, "type"@, "log"@) + "] "@ + lk_str(m, "text"@, Seq::empty())
            + seq!['\n'] + log_lines(ls, i + 1)
    }
}

/// One line per page error: a marker, then its message.
pub open spec fn error_lines(es: Seq<JsonV>, i: int) -> Seq<char>
    decreases es.len() - i,
{
    if !(0 <= i < es.len()) {
        Seq::empty()
    } else {
        let m = membs_of(es[i]);
        "x "@ + lk_str(m, "message"@, Seq::empty()) + seq!['\n'] + error_lines(es, i + 1)
    }
}

/// One `name=value` line per cookie.
pub open spec fn cookie_lines(cs: Seq<JsonV>, i: int) -> Seq<char>
    decreases cs.len() - i,
{
    if !(0 <= i < cs.len()) {
        Seq::empty()
    } else {
        let m = membs_of(cs[i]);
        lk_str(m, "name"@, Seq::empty()) + seq!['='] + lk_str(m, "value"@, Seq::empty())
            + seq!['\n'] + cookie_lines(cs, i + 1)
    }
}

/// The option holds a string value.
pub open spec fn is_str(o: Option<JsonV>) -> bool {
    o matches Some(JsonV::Str(_))
}

/// The string inside the option.
pub open spec fn as_str(o: Option<JsonV>) -> Seq<char> {
    o->Some_0->Str_0
}

/// The option holds a boolean value.
pub open spec fn is_bool(o: Option<JsonV>) -> bool {
    o matches Some(JsonV::Bool(_))
}

/// The standard-stream text for a successful payload: first-match-wins
/// probing, in this exact priority order.
pub open spec fn spec_render_data(d: JsonV) -> Seq<char> {
    let m = membs_of(d);
    if is_str(obj_lookup(m, "url"@)) {
        if is_str(obj_lookup(m, "title"@)) {
            as_str(obj_lookup(m, "title"@)) + seq!['\n'] + "  "@ + as_str(obj_lookup(m, "url"@))
                + seq!['\n']
        } else {
            as_str(obj_lookup(m, "url"@)) + seq!['\n']
        }
    } else if is_str(obj_lookup(m, "snapshot"@)) {
        as_str(obj_lookup(m, "snapshot"@)) + seq!['\n']
    } else if is_str(obj_lookup(m, "title"@)) {
        as_str(obj_lookup(m, "title"@)) + seq!['\n']
    } else if is_str(obj_lookup(m, "text"@)) {
        as_str(obj_lookup(m, "text"@)) + seq!['\n']
    } else if is_str(obj_lookup(m, "html"@)) {
        as_str(obj_lookup(m, "html"@)) + seq!['\n']
    } else if is_str(obj_lookup(m, "value"@)) {
        as_str(obj_lookup(m, "value"@)) + seq!['\n']
    } else if obj_lookup(m, "count"@) matches Some(JsonV::Num(_)) && is_int_lit(
        obj_lookup(m, "count"@)->Some_0->Num_0,
    ) {
        obj_lookup(m, "count"@)->Some_0->Num_0 + seq!['\n']
    } else if is_bool(obj_lookup(m, "visible"@)) {
        str_of(obj_lookup(m, "visible"@)->Some_0->Bool_0) + seq!['\n']
    } else if is_bool(obj_lookup(m, "enabled"@)) {
        str_of(obj_lookup(m, "enabled"@)->Some_0->Bool_0) + seq!['\n']
    } else if is_bool(obj_lookup(m, "checked"@)) {
        str_of(obj_lookup(m, "checked"@)->Some_0->Bool_0) + seq!['\n']
    } else if obj_lookup(m, "result"@) is Some {
        enc(obj_lookup(m, "result"@)->Some_0) + seq!['\n']
    } else if obj_lookup(m, "tabs"@) matches Some(JsonV::Arr(_)) {
        tab_lines(obj_lookup(m, "tabs"@)->Some_0->Arr_0, 0)
    } else if obj_lookup(m, "logs"@) matches Some(JsonV::Arr(_)) {
        log_lines(obj_lookup(m, "logs"@)->Some_0->Arr_0, 0)
    } else if obj_lookup(m, "errors"@) matches Some(JsonV::Arr(_)) {
        error_lines(obj_lookup(m, "errors"@)->Some_0->Arr_0, 0)
    } else if obj_lookup(m, "cookies"@) matches Some(JsonV::Arr(_)) {
        cookie_lines(obj_lookup(m, "cookies"@)->Some_0->Arr_0, 0)
    } else if obj_lookup(m, "box"@) is Some {
        enc(obj_lookup(m, "box"@)->Some_0) + seq!['\n']
    } else if obj_lookup(m, "closed"@) is Some {
        "Browser closed\n"@
    } else if is_str(obj_lookup(m, "path"@)) {
        "Screenshot saved to "@ + as_str(obj_lookup(m, "path"@)) + seq!['\n']
    } else {
        "Done\n"@
    }
}

/// What rendering prints, on each stream. In JSON mode the response is
/// re-encoded verbatim on the standard stream. In human mode a failure
/// prints one error line on the error stream and nothing on the
/// standard stream, falling back to a generic message when the worker
/// sent none; a success renders its payload by shape, and a success
/// without a payload prints nothing.
pub open spec fn spec_render(r: ResponseV, json_mode: bool) -> (Seq<char>, Seq<char>) {
    if json_mode {
        (enc(resp_jv(r)) + seq!['\n'], Seq::empty())
    } else if !r.success {
        let msg = match r.error {
            Some(e) => e,
            None => "Unknown error"@,
        };
        (Seq::empty(), "Error: "@ + msg + seq!['\n'])
    } else {
        match r.data {
            None => (Seq::empty(), Seq::empty()),
            Some(d) => (spec_render_data(d), Seq::empty()),
        }
    }
}

/// The renderer prints the title line before the address line, and
/// nothing else, whenever a successful payload carries both as strings
/// — whatever other members stand beside them.
pub proof fn lemma_title_before_url(r: ResponseV, m: Seq<(Seq<char>, JsonV)>, t: Seq<char>, u: Seq<
    char,
>)
    requires
        r.success,
        r.data == Some(JsonV::Obj(m)),
        obj_lookup(m, "url"@) == Some(JsonV::Str(u)),
        obj_lookup(m, "title"@) == Some(JsonV::Str(t)),
    ensures
        spec_render(r, false).0 == t + seq!['\n'] + "  "@ + u + seq!['\n'],
        spec_render(r, false).1 == Seq::<char>::empty(),
{
}

/// A human-mode failure prints exactly one line, on the error stream
/// alone, and that line carries the worker's message.
pub proof fn lemma_failure_goes_to_error_stream(r: ResponseV, e: Seq<char>)
    requires
        !r.success,
        r.error == Some(e),
    ensures
        spec_render(r, false).0 == Seq::<char>::empty(),
        spec_render(r, false).1 == "Error: "@ + e + seq!['\n'],
{
}

// ---------------------------------------------------------------------------
// The executable renderer
// ---------------------------------------------------------------------------

fn push_str(out: &mut Vec<char>, s: &str)
    ensures
        final(out)@ == old(out)@ + s@,
{
    let mut cs = crate::strutil::str_to_chars(s);
    out.append(&mut cs);
}

fn ex_is_int_lit(l: &String) -> (r: bool)
    ensures
        r == is_int_lit(l@),
{
    let cs = crate::strutil::str_to_chars(l.as_str());
    let start: usize = if cs.len() > 0 && cs[0] == '-' {
        1
    } else {
        0
    };
    let ghost t = if l@.len() > 0 && l@[0] == '-' {
        l@.drop_first()
    } else {
        l@
    };
    proof {
        assert(t =~= cs@.subrange(start as int, cs@.len() as int));
    }
    if start >= cs.len() {
        return false;
    }
    let mut i: usize = start;
    #[verifier::loop_isolation(false)]
    while i < cs.len()
        invariant
            start <= i <= cs.len(),
            forall|k: int| 0 <= k < i - start ==> crate::numtext::is_digit(#[trigger] t[k]),
        decreases cs.len() - i,
    {
        let c = cs[i];
        if !('0' <= c && c <= '9') {
            proof {
                assert(!crate::numtext::is_digit(t[i - start as int]));
            }
            return false;
        }
        i = i + 1;
    }
    true
}

fn lk_str_ex(m: &Vec<(String, Json)>, k: &str, dflt: &str) -> (r: String)
    ensures
        r@ == lk_str(jv_membs(m@), k@, dflt@),
{
    match lookup_clone(m, k) {
        Some(Json::Str(s)) => s,
        _ => dflt.to_owned(),
    }
}

fn lk_bool_ex(m: &Vec<(String, Json)>, k: &str, dflt: bool) -> (r: bool)
    ensures
        r == lk_bool(jv_membs(m@), k@, dflt),
{
    match lookup_clone(m, k) {
        Some(Json::Bool(b)) => b,
        _ => dflt,
    }
}

/// One line per tab, appended to `out`.
#[verifier::loop_isolation(false)]
#[verifier::rlimit(100)]
fn render_tabs(ts: &Vec<Json>, out: &mut Vec<char>)
    ensures
        final(out)@ == old(out)@ + tab_lines(jv_seq(ts@), 0),
{
    let ghost tv = jv_seq(ts@);
    proof {
        lemma_jv_seq(ts@);
    }
    let empty: Vec<(String, Json)> = Vec::new();
    proof {
        lemma_jv_membs(empty@);
        assert(jv_membs(empty@) =~= Seq::<(Seq<char>, JsonV)>::empty());
    }
    let mut i: usize = 0;
    while i < ts.len()
        invariant
            0 <= i <= ts.len(),
            old(out)@ + tab_lines(tv, 0) == out@ + tab_lines(tv, i as int),
        decreases ts.len() - i,
    {
        let ghost pre = out@;
        let mref: &Vec<(String, Json)> = match &ts[i] {
            Json::Obj(mm) => mm,
            _ => &empty,
        };
        proof {
            assert(jv_membs(mref@) == membs_of(tv[i as int]));
        }
        let active = lk_bool_ex(mref, "active", false);
        if active {
            push_str(out, "->");
        } else {
            push_str(out, "  ");
        }
        let ghost g1 = out@;
        push_str(out, " [");
        let idx = crate::numtext::u64_to_string(i as u64);
        push_str(out, idx.as_str());
        let ghost g2 = out@;
        push_str(out, "] ");
        let title = lk_str_ex(mref, "title", "Untitled");
        push_str(out, title.as_str());
        let ghost g3 = out@;
        push_str(out, " - ");
        let url = lk_str_ex(mref, "url", "");
        push_str(out, url.as_str());
        out.push('\n');
        proof {
            reveal_strlit("");
            assert(""@ =~= Seq::<char>::empty());
            let m = membs_of(tv[i as int]);
            let marker: Seq<char> = if lk_bool(m, "active"@, false) {
                "->"@
            } else {
                "  "@
            };
            assert(g1 == pre + marker);
            assert(g2 == g1 + " ["@ + crate::numtext::dec_digits(i as nat));
            assert(g3 == g2 + "] "@ + lk_str(m, "title"@, "Untitled"@));
            assert(out@ == g3 + " - "@ + lk_str(m, "url"@, Seq::empty()) + seq!['\n']);
            let line = marker + " ["@ + crate::numtext::dec_digits(i as nat) + "] "@ + lk_str(
                m,
                "title"@,
                "Untitled"@,
            ) + " - "@ + lk_str(m, "url"@, Seq::empty()) + seq!['\n'];
            assert(out@ =~= pre + line);
            assert(tab_lines(tv, i as int) == line + tab_lines(tv, i + 1 as int));
            assert(out@ + tab_lines(tv, i + 1 as int) =~= pre + tab_lines(tv, i as int));
        }
        i = i + 1;
    }
}

/// One line per console entry, appended to `out`.
#[verifier::loop_isolation(false)]
#[verifier::rlimit(100)]
fn render_logs(ls: &Vec<Json>, out: &mut Vec<char>)
    ensures
        final(out)@ == old(out)@ + log_lines(jv_seq(ls@), 0),
{
    let ghost lv = jv_seq(ls@);
    proof {
        lemma_jv_seq(ls@);
    }
    let empty: Vec<(String, Json)> = Vec::new();
    proof {
        lemma_jv_membs(empty@);
        assert(jv_membs(empty@) =~= Seq::<(Seq<char>, JsonV)>::empty());
    }
    let mut i: usize = 0;
    while i < ls.len()
        invariant
            0 <= i <= ls.len(),
            old(out)@ + log_lines(lv, 0) == out@ + log_lines(lv, i as int),
        decreases ls.len() - i,
    {
        let ghost pre = out@;
        let mref: &Vec<(String, Json)> = match &ls[i] {
            Json::Obj(mm) => mm,
            _ => &empty,
        };
        proof {
            assert(jv_membs(mref@) == membs_of(lv[i as int]));
        }
        out.push('[');
        let level = lk_str_ex(mref, "type", "log");
        push_str(out, level.as_str());
        push_str(out, "] ");
        let text = lk_str_ex(mref, "text", "");
        push_str(out, text.as_str());
        out.push('\n');
        proof {
            reveal_strlit("");
            assert(""@ =~= Seq::<char>::empty());
            let m = membs_of(lv[i as int]);
            let line = seq!['['] + lk_str(m, "type"@, "log"@) + "] "@ + lk_str(
                m,
                "text"@,
                Seq::empty(),
            ) + seq!['\n'];
            assert(out@ =~= pre + line);
            assert(log_lines(lv, i as int) == line + log_lines(lv, i + 1 as int));
            assert(out@ + log_lines(lv, i + 1 as int) =~= pre + log_lines(lv, i as int));
        }
        i = i + 1;
    }
}

/// One line per page error, appended to `out`.
#[verifier::loop_isolation(false)]
#[verifier::rlimit(100)]
fn render_errors(es: &Vec<Json>, out: &mut Vec<char>)
    ensures
        final(out)@ == old(out)@ + error_lines(jv_seq(es@), 0),
{
    let ghost ev = jv_seq(es@);
    proof {
        lemma_jv_seq(es@);
    }
    let empty: Vec<(String, Json)> = Vec::new();
    proof {
        lemma_jv_membs(empty@);
        assert(jv_membs(empty@) =~= Seq::<(Seq<char>, JsonV)>::empty());
    }
    let mut i: usize = 0;
    while i < es.len()
        invariant
            0 <= i <= es.len(),
            old(out)@ + error_lines(ev, 0) == out@ + error_lines(ev, i as int),
        decreases es.len() - i,
    {
        let ghost pre = out@;
        let mref: &Vec<(String, Json)> = match &es[i] {
            Json::Obj(mm) => mm,
            _ => &empty,
        };
        proof {
            assert(jv_membs(mref@) == membs_of(ev[i as int]));
        }
        push_str(out, "x ");
        let msg = lk_str_ex(mref, "message", "");
        push_str(out, msg.as_str());
        out.push('\n');
        proof {
            reveal_strlit("");
            assert(""@ =~= Seq::<char>::empty());
            let m = membs_of(ev[i as int]);
            let line = "x "@ + lk_str(m, "message"@, Seq::empty()) + seq!['\n'];
            assert(out@ =~= pre + line);
            assert(error_lines(ev, i as int) == line + error_lines(ev, i + 1 as int));
            assert(out@ + error_lines(ev, i + 1 as int) =~= pre + error_lines(ev, i as int));
        }
        i = i + 1;
    }
}

/// One `name=value` line per cookie, appended to `out`.
#[verifier::loop_isolation(false)]
#[verifier::rlimit(100)]
fn render_cookies(cs: &Vec<Json>, out: &mut Vec<char>)
    ensures
        final(out)@ == old(out)@ + cookie_lines(jv_seq(cs@), 0),
{
    let ghost cv = jv_seq(cs@);
    proof {
        lemma_jv_seq(cs@);
    }
    let empty: Vec<(String, Json)> = Vec::new();
    proof {
        lemma_jv_membs(empty@);
        assert(jv_membs(empty@) =~= Seq::<(Seq<char>, JsonV)>::empty());
    }
    let mut i: usize = 0;
    while i < cs.len()
        invariant
            0 <= i <= cs.len(),
            old(out)@ + cookie_lines(cv, 0) == out@ + cookie_lines(cv, i as int),
        decreases cs.len() - i,
    {
        let ghost pre = out@;
        let mref: &Vec<(String, Json)> = match &cs[i] {
            Json::Obj(mm) => mm,
            _ => &empty,
        };
        proof {
            assert(jv_membs(mref@) == membs_of(cv[i as int]));
        }
        let name = lk_str_ex(mref, "name", "");
        push_str(out, name.as_str());
        out.push('=');
        let value = lk_str_ex(mref, "value", "");
        push_str(out, value.as_str());
        out.push('\n');
        proof {
            reveal_strlit("");
            assert(""@ =~= Seq::<char>::empty());
            let m = membs_of(cv[i as int]);
            let line = lk_str(m, "name"@, Seq::empty()) + seq!['='] + lk_str(
                m,
                "value"@,
                Seq::empty(),
            ) + seq!['\n'];
            assert(out@ =~= pre + line);
            assert(cookie_lines(cv, i as int) == line + cookie_lines(cv, i + 1 as int));
            assert(out@ + cookie_lines(cv, i + 1 as int) =~= pre + cookie_lines(cv, i as int));
        }
        i = i + 1;
    }
}

/// Renders a successful payload, as [`spec_render_data`] says.
#[verifier::rlimit(100)]
fn render_data(d: &Json) -> (r: String)
    ensures
        r@ == spec_render_data(d@),
{
    let empty: Vec<(String, Json)> = Vec::new();
    proof {
        lemma_jv_membs(empty@);
        assert(jv_membs(empty@) =~= Seq::<(Seq<char>, JsonV)>::empty());
    }
    let mref: &Vec<(String, Json)> = match d {
        Json::Obj(mm) => mm,
        _ => &empty,
    };
    proof {
        assert(jv_membs(mref@) == membs_of(d@));
    }
    let mut out: Vec<char> = Vec::new();
    match lookup_clone(mref, "url") {
        Some(Json::Str(u)) => {
            match lookup_clone(mref, "title") {
                Some(Json::Str(t)) => {
                    push_str(&mut out, t.as_str());
                    out.push('\n');
                    push_str(&mut out, "  ");
                    push_str(&mut out, u.as_str());
                    out.push('\n');
                },
                _ => {
                    push_str(&mut out, u.as_str());
                    out.push('\n');
                },
            }
            return crate::strutil::chars_to_string(&out);
        },
        _ => {},
    }
    match lookup_clone(mref, "snapshot") {
        Some(Json::Str(s)) => {
            push_str(&mut out, s.as_str());
            out.push('\n');
            return crate::strutil::chars_to_string(&out);
        },
        _ => {},
    }
    match lookup_clone(mref, "title") {
        Some(Json::Str(t)) => {
            push_str(&mut out, t.as_str());
            out.push('\n');
            return crate::strutil::chars_to_string(&out);
        },
        _ => {},
    }
    match lookup_clone(mref, "text") {
        Some(Json::Str(t)) => {
            push_str(&mut out, t.as_str());
            out.push('\n');
            return crate::strutil::chars_to_string(&out);
        },
        _ => {},
    }
    match lookup_clone(mref, "html") {
        Some(Json::Str(h)) => {
            push_str(&mut out, h.as_str());
            out.push('\n');
            return crate::strutil::chars_to_string(&out);
        },
        _ => {},
    }
    match lookup_clone(mref, "value") {
        Some(Json::Str(v)) => {
            push_str(&mut out, v.as_str());
            out.push('\n');
            return crate::strutil::chars_to_string(&out);
        },
        _ => {},
    }
    let count_hit: Option<String> = match lookup_clone(mref, "count") {
        Some(Json::Num(l)) => if ex_is_int_lit(&l) {
            Some(l)
        } else {
            None
        },
        _ => None,
    };
    match count_hit {
        Some(l) => {
            push_str(&mut out, l.as_str());
            out.push('\n');
            return crate::strutil::chars_to_string(&out);
        },
        None => {},
    }
    match lookup_clone(mref, "visible") {
        Some(Json::Bool(b)) => {
            push_str(&mut out, if b { "true" } else { "false" });
            out.push('\n');
            return crate::strutil::chars_to_string(&out);
        },
        _ => {},
    }
    match lookup_clone(mref, "enabled") {
        Some(Json::Bool(b)) => {
            push_str(&mut out, if b { "true" } else { "false" });
            out.push('\n');
            return crate::strutil::chars_to_string(&out);
        },
        _ => {},
    }
    match lookup_clone(mref, "checked") {
        Some(Json::Bool(b)) => {
            push_str(&mut out, if b { "true" } else { "false" });
            out.push('\n');
            return crate::strutil::chars_to_string(&out);
        },
        _ => {},
    }
    match lookup_clone(mref, "result") {
        Some(v) => {
            let mut cs = v.encode();
            out.append(&mut cs);
            out.push('\n');
            return crate::strutil::chars_to_string(&out);
        },
        None => {},
    }
    match lookup_clone(mref, "tabs") {
        Some(Json::Arr(ts)) => {
            render_tabs(&ts, &mut out);
            return crate::strutil::chars_to_string(&out);
        },
        _ => {},
    }
    match lookup_clone(mref, "logs") {
        Some(Json::Arr(ls)) => {
            render_logs(&ls, &mut out);
            return crate::strutil::chars_to_string(&out);
        },
        _ => {},
    }
    match lookup_clone(mref, "errors") {
        Some(Json::Arr(es)) => {
            render_errors(&es, &mut out);
            return crate::strutil::chars_to_string(&out);
        },
        _ => {},
    }
    match lookup_clone(mref, "cookies") {
        Some(Json::Arr(cs)) => {
            render_cookies(&cs, &mut out);
            return crate::strutil::chars_to_string(&out);
        },
        _ => {},
    }
    match lookup_clone(mref, "box") {
        Some(v) => {
            let mut cs = v.encode();
            out.append(&mut cs);
            out.push('\n');
            return crate::strutil::chars_to_string(&out);
        },
        None => {},
    }
    match lookup_clone(mref, "closed") {
        Some(_) => {
            push_str(&mut out, "Browser closed\n");
            return crate::strutil::chars_to_string(&out);
        },
        None => {},
    }
    match lookup_clone(mref, "path") {
        Some(Json::Str(p)) => {
            push_str(&mut out, "Screenshot saved to ");
            push_str(&mut out, p.as_str());
            out.push('\n');
            return crate::strutil::chars_to_string(&out);
        },
        _ => {},
    }
    push_str(&mut out, "Done\n");
    crate::strutil::chars_to_string(&out)
}

/// Renders a response for one output mode, as [`spec_render`] says:
/// the first component goes to the standard stream, the second to the
/// error stream.
pub fn render_response(resp: &Response, json_mode: bool) -> (r: RenderOut)
    ensures
        r.out@ == spec_render(resp@, json_mode).0,
        r.err@ == spec_render(resp@, json_mode).1,
{
    if json_mode {
        let enc = crate::protocol::encode_response(resp);
        let mut cs = crate::strutil::str_to_chars(enc.as_str());
        cs.push('\n');
        let out = crate::strutil::chars_to_string(&cs);
        proof {
            assert(out@ =~= spec_render(resp@, true).0);
        }
        RenderOut { out, err: String::new() }
    } else if !resp.success {
        let mut ecs: Vec<char> = Vec::new();
        push_str(&mut ecs, "Error: ");
        match &resp.error {
            Some(e) => {
                push_str(&mut ecs, e.as_str());
            },
            None => {
                push_str(&mut ecs, "Unknown error");
            },
        }
        ecs.push('\n');
        let err = crate::strutil::chars_to_string(&ecs);
        proof {
            assert(err@ =~= spec_render(resp@, false).1);
        }
        RenderOut { out: String::new(), err }
    } else {
        match &resp.data {
            None => RenderOut { out: String::new(), err: String::new() },
            Some(d) => RenderOut { out: render_data(d), err: String::new() },
        }
    }
}

} // verus!
