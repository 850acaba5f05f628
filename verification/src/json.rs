//! The wire value model: a JSON-shaped tree of nulls, booleans, number
//! literals, strings, arrays and objects, with a verified encoder and
//! decoder for the newline-delimited wire format, and a proof that
//! decoding an encoded value gives the value back.
//!
//! Numbers are carried as their decimal literal text (`Num` holds the
//! characters that stand on the wire), so no floating point is involved;
//! the constructors used by the translator only ever build literals that
//! satisfy [`valid_num_lit`].

use vstd::prelude::*;

verus! {

broadcast use {vstd::seq::group_seq_axioms, vstd::std_specs::vec::group_vec_axioms};

/// The mathematical form of a wire value.
#[verifier::ext_equal]
pub enum JsonV {
    Null,
    Bool(bool),
    /// A number, as the characters of its decimal literal.
    Num(Seq<char>),
    Str(Seq<char>),
    Arr(Seq<JsonV>),
    Obj(Seq<(Seq<char>, JsonV)>),
}

/// An executable wire value.
pub enum Json {
    Null,
    Bool(bool),
    /// A number, as the text of its decimal literal.
    Num(String),
    Str(String),
    Arr(Vec<Json>),
    Obj(Vec<(String, Json)>),
}

pub open spec fn jv_seq(s: Seq<Json>) -> Seq<JsonV>
    decreases s,
{
    if s.len() == 0 {
        Seq::empty()
    } else {
        seq![s[0].jv()] + jv_seq(s.drop_first())
    }
}

pub open spec fn jv_membs(s: Seq<(String, Json)>) -> Seq<(Seq<char>, JsonV)>
    decreases s,
{
    if s.len() == 0 {
        Seq::empty()
    } else {
        seq![(s[0].0@, s[0].1.jv())] + jv_membs(s.drop_first())
    }
}

impl Json {
    /// The mathematical value this node stands for.
    pub open spec fn jv(self) -> JsonV
        decreases self,
    {
        match self {
            Json::Null => JsonV::Null,
            Json::Bool(b) => JsonV::Bool(b),
            Json::Num(l) => JsonV::Num(l@),
            Json::Str(s) => JsonV::Str(s@),
            Json::Arr(a) => JsonV::Arr(jv_seq(a@)),
            Json::Obj(m) => JsonV::Obj(jv_membs(m@)),
        }
    }
}

impl View for Json {
    type V = JsonV;

    open spec fn view(&self) -> JsonV {
        self.jv()
    }
}

pub proof fn lemma_jv_seq(s: Seq<Json>)
    ensures
        jv_seq(s).len() == s.len(),
        forall|i: int| 0 <= i < s.len() ==> jv_seq(s)[i] == s[i].jv(),
    decreases s.len(),
{
    if s.len() > 0 {
        lemma_jv_seq(s.drop_first());
    }
}

pub proof fn lemma_jv_membs(s: Seq<(String, Json)>)
    ensures
        jv_membs(s).len() == s.len(),
        forall|i: int| 0 <= i < s.len() ==> jv_membs(s)[i] == (s[i].0@, s[i].1.jv()),
    decreases s.len(),
{
    if s.len() > 0 {
        lemma_jv_membs(s.drop_first());
    }
}

// ---------------------------------------------------------------------------
// Well-formedness
// ---------------------------------------------------------------------------

/// A character that may stand inside a number literal.
pub open spec fn num_char(c: char) -> bool {
    ('0' <= c && c <= '9') || c == '-' || c == '+' || c == '.' || c == 'e' || c == 'E'
}

/// The shape a number literal must have for the codec: nonempty, starting
/// with a sign or digit, made of number characters only.
pub open spec fn valid_num_lit(l: Seq<char>) -> bool {
    &&& l.len() > 0
    &&& (l[0] == '-' || ('0' <= l[0] && l[0] <= '9'))
    &&& forall|k: int| 0 <= k < l.len() ==> num_char(#[trigger] l[k])
}

/// Every number literal in the tree has the shape the codec frames.
pub open spec fn wf(v: JsonV) -> bool
    decreases v,
{
    match v {
        JsonV::Null => true,
        JsonV::Bool(_) => true,
        JsonV::Num(l) => valid_num_lit(l),
        JsonV::Str(_) => true,
        JsonV::Arr(a) => wf_seq(a),
        JsonV::Obj(m) => wf_membs(m),
    }
}

/// Every element of the sequence is well-formed.
pub open spec fn wf_seq(a: Seq<JsonV>) -> bool
    decreases a,
{
    a.len() == 0 || (wf(a[0]) && wf_seq(a.drop_first()))
}

/// Every member value of the sequence is well-formed.
pub open spec fn wf_membs(m: Seq<(Seq<char>, JsonV)>) -> bool
    decreases m,
{
    m.len() == 0 || (wf(m[0].1) && wf_membs(m.drop_first()))
}

pub proof fn lemma_wf_membs(m: Seq<(Seq<char>, JsonV)>)
    ensures
        wf_membs(m) <==> (forall|i: int| 0 <= i < m.len() ==> wf(#[trigger] m[i].1)),
    decreases m.len(),
{
    if m.len() > 0 {
        lemma_wf_membs(m.drop_first());
        if forall|i: int| 0 <= i < m.len() ==> wf(#[trigger] m[i].1) {
            assert forall|i: int| 0 <= i < m.drop_first().len() implies wf(
                #[trigger] m.drop_first()[i].1,
            ) by {
                assert(m.drop_first()[i] == m[i + 1]);
            }
        }
        if wf_membs(m) {
            assert forall|i: int| 0 <= i < m.len() implies wf(#[trigger] m[i].1) by {
                if i > 0 {
                    assert(m[i] == m.drop_first()[i - 1]);
                }
            }
        }
    }
}

// ---------------------------------------------------------------------------
// Encoding, as a specification
// ---------------------------------------------------------------------------

/// The lower-case hexadecimal digit for `n`.
pub open spec fn hex_digit(n: int) -> char {
    if n == 0 { '0' } else if n == 1 { '1' } else if n == 2 { '2' } else if n == 3 { '3' }
    else if n == 4 { '4' } else if n == 5 { '5' } else if n == 6 { '6' } else if n == 7 { '7' }
    else if n == 8 { '8' } else if n == 9 { '9' } else if n == 10 { 'a' } else if n == 11 { 'b' }
    else if n == 12 { 'c' } else if n == 13 { 'd' } else if n == 14 { 'e' } else { 'f' }
}

/// How one character stands inside an encoded string.
pub open spec fn esc(c: char) -> Seq<char> {
    if c == '"' {
        seq!['\\', '"']
    } else if c == '\\' {
        seq!['\\', '\\']
    } else if c == '\n' {
        seq!['\\', 'n']
    } else if c == '\r' {
        seq!['\\', 'r']
    } else if c == '\t' {
        seq!['\\', 't']
    } else if (c as u32) < 0x20 {
        seq!['\\', 'u', '0', '0', hex_digit((c as u32) as int / 16), hex_digit((c as u32) as int % 16)]
    } else {
        seq![c]
    }
}

/// The body of an encoded string: each character escaped.
pub open spec fn enc_str(s: Seq<char>) -> Seq<char>
    decreases s.len(),
{
    if s.len() == 0 {
        Seq::empty()
    } else {
        esc(s[0]) + enc_str(s.drop_first())
    }
}

/// The encoding of a value: compact JSON, no whitespace of its own.
pub open spec fn enc(v: JsonV) -> Seq<char>
    decreases v,
{
    match v {
        JsonV::Null => seq!['n', 'u', 'l', 'l'],
        JsonV::Bool(b) => if b { seq!['t', 'r', 'u', 'e'] } else { seq!['f', 'a', 'l', 's', 'e'] },
        JsonV::Num(l) => l,
        JsonV::Str(s) => seq!['"'] + enc_str(s) + seq!['"'],
        JsonV::Arr(a) => seq!['['] + enc_elems(a) + seq![']'],
        JsonV::Obj(m) => seq!['{'] + enc_membs(m) + seq!['}'],
    }
}

/// The comma-separated encodings of array elements.
pub open spec fn enc_elems(a: Seq<JsonV>) -> Seq<char>
    decreases a,
{
    if a.len() == 0 {
        Seq::empty()
    } else if a.len() == 1 {
        enc(a[0])
    } else {
        enc(a[0]) + seq![','] + enc_elems(a.drop_first())
    }
}

/// The comma-separated encodings of object members.
pub open spec fn enc_membs(m: Seq<(Seq<char>, JsonV)>) -> Seq<char>
    decreases m,
{
    if m.len() == 0 {
        Seq::empty()
    } else if m.len() == 1 {
        seq!['"'] + enc_str(m[0].0) + seq!['"', ':'] + enc(m[0].1)
    } else {
        seq!['"'] + enc_str(m[0].0) + seq!['"', ':'] + enc(m[0].1) + seq![','] + enc_membs(
            m.drop_first(),
        )
    }
}

/// The encoding of one object member.
pub open spec fn enc_memb(k: Seq<char>, v: JsonV) -> Seq<char> {
    seq!['"'] + enc_str(k) + seq!['"', ':'] + enc(v)
}

pub proof fn lemma_enc_str_snoc(s: Seq<char>, c: char)
    ensures
        enc_str(s.push(c)) == enc_str(s) + esc(c),
    decreases s.len(),
{
    if s.len() == 0 {
        assert(s.push(c)[0] == c);
        assert(s.push(c).drop_first() =~= Seq::<char>::empty());
        assert(enc_str(Seq::<char>::empty()) == Seq::<char>::empty());
        assert(enc_str(s.push(c)) == esc(s.push(c)[0]) + enc_str(s.push(c).drop_first()));
        assert(enc_str(s.push(c)) =~= esc(c));
        assert(enc_str(s) + esc(c) =~= esc(c));
    } else {
        assert(s.push(c).drop_first() =~= s.drop_first().push(c));
        assert(s.push(c)[0] == s[0]);
        lemma_enc_str_snoc(s.drop_first(), c);
        assert(enc_str(s.push(c)) =~= enc_str(s) + esc(c));
    }
}

pub proof fn lemma_enc_elems_snoc(a: Seq<JsonV>, v: JsonV)
    ensures
        a.len() == 0 ==> enc_elems(a.push(v)) == enc(v),
        a.len() > 0 ==> enc_elems(a.push(v)) == enc_elems(a) + seq![','] + enc(v),
    decreases a.len(),
{
    if a.len() == 0 {
        assert(a.push(v)[0] == v);
        assert(enc_elems(a.push(v)) == enc(v));
    } else if a.len() == 1 {
        assert(a.push(v)[0] == a[0]);
        assert(a.push(v).drop_first() =~= seq![v]);
        assert(enc_elems(seq![v]) == enc(v));
        assert(enc_elems(a.push(v)) =~= enc_elems(a) + seq![','] + enc(v));
    } else {
        assert(a.push(v)[0] == a[0]);
        assert(a.push(v).drop_first() =~= a.drop_first().push(v));
        lemma_enc_elems_snoc(a.drop_first(), v);
        assert(enc_elems(a.push(v)) =~= enc_elems(a) + seq![','] + enc(v));
    }
}

pub proof fn lemma_enc_membs_snoc(m: Seq<(Seq<char>, JsonV)>, k: Seq<char>, v: JsonV)
    ensures
        m.len() == 0 ==> enc_membs(m.push((k, v))) == enc_memb(k, v),
        m.len() > 0 ==> enc_membs(m.push((k, v))) == enc_membs(m) + seq![','] + enc_memb(k, v),
    decreases m.len(),
{
    if m.len() == 0 {
        assert(m.push((k, v))[0] == (k, v));
        assert(enc_membs(m.push((k, v))) == enc_memb(k, v));
    } else if m.len() == 1 {
        assert(m.push((k, v))[0] == m[0]);
        assert(m.push((k, v)).drop_first() =~= seq![(k, v)]);
        assert(enc_membs(seq![(k, v)]) == enc_memb(k, v));
        assert(enc_membs(m.push((k, v))) =~= enc_membs(m) + seq![','] + enc_memb(k, v));
    } else {
        assert(m.push((k, v))[0] == m[0]);
        assert(m.push((k, v)).drop_first() =~= m.drop_first().push((k, v)));
        lemma_enc_membs_snoc(m.drop_first(), k, v);
        assert(enc_membs(m.push((k, v))) =~= enc_membs(m) + seq![','] + enc_memb(k, v));
    }
}

// ---------------------------------------------------------------------------
// The executable encoder
// ---------------------------------------------------------------------------

/// The lower-case hexadecimal digit for `n`.
pub fn hex_digit_ex(n: u8) -> (c: char)
    requires
        n < 16,
    ensures
        c == hex_digit(n as int),
{
    if n == 0 { '0' } else if n == 1 { '1' } else if n == 2 { '2' } else if n == 3 { '3' }
    else if n == 4 { '4' } else if n == 5 { '5' } else if n == 6 { '6' } else if n == 7 { '7' }
    else if n == 8 { '8' } else if n == 9 { '9' } else if n == 10 { 'a' } else if n == 11 { 'b' }
    else if n == 12 { 'c' } else if n == 13 { 'd' } else if n == 14 { 'e' } else { 'f' }
}

/// Appends the escaped form of `c` to `out`.
pub fn push_escaped_char(out: &mut Vec<char>, c: char)
    ensures
        final(out)@ == old(out)@ + esc(c),
{
    if c == '"' {
        out.push('\\');
        out.push('"');
    } else if c == '\\' {
        out.push('\\');
        out.push('\\');
    } else if c == '\n' {
        out.push('\\');
        out.push('n');
    } else if c == '\r' {
        out.push('\\');
        out.push('r');
    } else if c == '\t' {
        out.push('\\');
        out.push('t');
    } else if (c as u32) < 0x20 {
        let v: u32 = c as u32;
        out.push('\\');
        out.push('u');
        out.push('0');
        out.push('0');
        out.push(hex_digit_ex((v / 16) as u8));
        out.push(hex_digit_ex((v % 16) as u8));
    } else {
        out.push(c);
    }
    proof {
        assert(out@ =~= old(out)@ + esc(c));
    }
}

/// Appends the escaped form of every character of `s` to `out`.
pub fn push_escaped(out: &mut Vec<char>, s: &Vec<char>)
    ensures
        final(out)@ == old(out)@ + enc_str(s@),
{
    let mut i: usize = 0;
    while i < s.len()
        invariant
            i <= s.len(),
            out@ == old(out)@ + enc_str(s@.subrange(0, i as int)),
        decreases s.len() - i,
    {
        push_escaped_char(out, s[i]);
        proof {
            assert(s@.subrange(0, i + 1 as int) =~= s@.subrange(0, i as int).push(s@[i as int]));
            lemma_enc_str_snoc(s@.subrange(0, i as int), s@[i as int]);
        }
        i = i + 1;
    }
    proof {
        assert(s@.subrange(0, s@.len() as int) =~= s@);
    }
}

impl Json {
    /// Appends the wire encoding of this value to `out`.
    #[verifier::loop_isolation(false)]
    #[verifier::rlimit(60)]
    pub fn encode_into(&self, out: &mut Vec<char>)
        ensures
            final(out)@ == old(out)@ + enc(self@),
        decreases *self,
    {
        match self {
            Json::Null => {
                out.push('n');
                out.push('u');
                out.push('l');
                out.push('l');
                proof {
                    assert(out@ =~= old(out)@ + enc(self@));
                }
            },
            Json::Bool(b) => {
                if *b {
                    out.push('t');
                    out.push('r');
                    out.push('u');
                    out.push('e');
                } else {
                    out.push('f');
                    out.push('a');
                    out.push('l');
                    out.push('s');
                    out.push('e');
                }
                proof {
                    assert(out@ =~= old(out)@ + enc(self@));
                }
            },
            Json::Num(l) => {
                let mut cs = crate::strutil::str_to_chars(l.as_str());
                out.append(&mut cs);
                proof {
                    assert(out@ =~= old(out)@ + enc(self@));
                }
            },
            Json::Str(s) => {
                out.push('"');
                let cs = crate::strutil::str_to_chars(s.as_str());
                push_escaped(out, &cs);
                out.push('"');
                proof {
                    assert(out@ =~= old(out)@ + enc(self@));
                }
            },
            Json::Arr(a) => {
                out.push('[');
                let ghost base = out@;
                let mut i: usize = 0;
                while i < a.len()
                    invariant
                        i <= a.len(),
                        out@ == base + enc_elems(jv_seq(a@).subrange(0, i as int)),
                        base == old(out)@ + seq!['['],
                    decreases a.len() - i,
                {
                    if i > 0 {
                        out.push(',');
                    }
                    proof {
                        lemma_jv_seq(a@);
                        assert(decreases_to!(*self => *a));
                        assert(decreases_to!(*a => a@));
                        assert(decreases_to!(a@ => a@[i as int]));
                    }
                    a[i].encode_into(out);
                    proof {
                        lemma_jv_seq(a@);
                        let pre = jv_seq(a@).subrange(0, i as int);
                        assert(jv_seq(a@).subrange(0, i + 1 as int) =~= pre.push(a@[i as int].jv()));
                        lemma_enc_elems_snoc(pre, a@[i as int].jv());
                        assert(out@ =~= base + enc_elems(jv_seq(a@).subrange(0, i + 1 as int)));
                    }
                    i = i + 1;
                }
                out.push(']');
                proof {
                    lemma_jv_seq(a@);
                    assert(jv_seq(a@).subrange(0, a@.len() as int) =~= jv_seq(a@));
                    assert(out@ =~= old(out)@ + enc(self@));
                }
            },
            Json::Obj(m) => {
                out.push('{');
                let ghost base = out@;
                let mut i: usize = 0;
                while i < m.len()
                    invariant
                        i <= m.len(),
                        out@ == base + enc_membs(jv_membs(m@).subrange(0, i as int)),
                        base == old(out)@ + seq!['{'],
                    decreases m.len() - i,
                {
                    if i > 0 {
                        out.push(',');
                    }
                    out.push('"');
                    let kcs = crate::strutil::str_to_chars(m[i].0.as_str());
                    push_escaped(out, &kcs);
                    out.push('"');
                    out.push(':');
                    proof {
                        assert(decreases_to!(*self => *m));
                        assert(decreases_to!(*m => m@));
                        assert(decreases_to!(m@ => m@[i as int]));
                        assert(decreases_to!(m@[i as int] => m@[i as int].1));
                    }
                    m[i].1.encode_into(out);
                    proof {
                        lemma_jv_membs(m@);
                        let pre = jv_membs(m@).subrange(0, i as int);
                        let kk = m@[i as int].0@;
                        let vv = m@[i as int].1.jv();
                        assert(jv_membs(m@).subrange(0, i + 1 as int) =~= pre.push((kk, vv)));
                        lemma_enc_membs_snoc(pre, kk, vv);
                        assert(out@ =~= base + enc_membs(jv_membs(m@).subrange(0, i + 1 as int)));
                    }
                    i = i + 1;
                }
                out.push('}');
                proof {
                    lemma_jv_membs(m@);
                    assert(jv_membs(m@).subrange(0, m@.len() as int) =~= jv_membs(m@));
                    assert(out@ =~= old(out)@ + enc(self@));
                }
            },
        }
    }

    /// The wire encoding of this value.
    pub fn encode(&self) -> (r: Vec<char>)
        ensures
            r@ == enc(self@),
    {
        let mut out: Vec<char> = Vec::new();
        self.encode_into(&mut out);
        out
    }
}


// ---------------------------------------------------------------------------
// Decoding, as a specification
// ---------------------------------------------------------------------------

/// Insignificant whitespace between tokens.
pub open spec fn is_ws(c: char) -> bool {
    c == ' ' || c == '\n' || c == '\r' || c == '\t'
}

/// The first position at or after `i` that does not hold whitespace.
pub open spec fn skip_ws(s: Seq<char>, i: int) -> int
    decreases s.len() - i,
{
    if 0 <= i && i < s.len() && is_ws(s[i]) {
        skip_ws(s, i + 1)
    } else {
        i
    }
}

/// The value of a hexadecimal digit, or -1.
pub open spec fn hex_val(c: char) -> int {
    if '0' <= c && c <= '9' {
        (c as u32) as int - ('0' as u32) as int
    } else if 'a' <= c && c <= 'f' {
        (c as u32) as int - ('a' as u32) as int + 10
    } else if 'A' <= c && c <= 'F' {
        (c as u32) as int - ('A' as u32) as int + 10
    } else {
        -1
    }
}

/// The end of the run of number characters that starts at `i`.
pub open spec fn num_end(s: Seq<char>, i: int) -> int
    decreases s.len() - i,
{
    if 0 <= i && i < s.len() && num_char(s[i]) {
        num_end(s, i + 1)
    } else {
        i
    }
}

/// One unit of string content at `i`: a plain character or an escape.
/// Yields the character it stands for and the position after it.
pub open spec fn str_step(s: Seq<char>, i: int) -> Option<(char, int)> {
    if !(0 <= i && i < s.len()) {
        None
    } else if s[i] == '\\' {
        if i + 1 < s.len() {
            let e = s[i + 1];
            if e == '"' || e == '\\' || e == '/' {
                Some((e, i + 2))
            } else if e == 'n' {
                Some(('\n', i + 2))
            } else if e == 'r' {
                Some(('\r', i + 2))
            } else if e == 't' {
                Some(('\t', i + 2))
            } else if e == 'b' {
                Some(('\u{8}', i + 2))
            } else if e == 'f' {
                Some(('\u{c}', i + 2))
            } else if e == 'u' {
                if i + 6 <= s.len() && hex_val(s[i + 2]) >= 0 && hex_val(s[i + 3]) >= 0
                    && hex_val(s[i + 4]) >= 0 && hex_val(s[i + 5]) >= 0 {
                    let v = hex_val(s[i + 2]) * 4096 + hex_val(s[i + 3]) * 256 + hex_val(
                        s[i + 4],
                    ) * 16 + hex_val(s[i + 5]);
                    if v <= 0xFF {
                        Some(((v as u8) as char, i + 6))
                    } else {
                        None
                    }
                } else {
                    None
                }
            } else {
                None
            }
        } else {
            None
        }
    } else if s[i] != '"' && (s[i] as u32) >= 0x20 {
        Some((s[i], i + 1))
    } else {
        None
    }
}

/// The content of an encoded string from `i` (just after the opening
/// quote) to its closing quote, with the position after that quote.
pub open spec fn parse_string(s: Seq<char>, i: int) -> Option<(Seq<char>, int)>
    decreases s.len() - i,
{
    if !(0 <= i && i < s.len()) {
        None
    } else if s[i] == '"' {
        Some((Seq::empty(), i + 1))
    } else {
        match str_step(s, i) {
            None => None,
            Some((c, j)) => if i < j && j <= s.len() {
                match parse_string(s, j) {
                    None => None,
                    Some((t, k)) => Some((seq![c] + t, k)),
                }
            } else {
                None
            },
        }
    }
}

pub proof fn lemma_parse_string_bounds(s: Seq<char>, i: int)
    ensures
        parse_string(s, i) is Some ==> i < parse_string(s, i)->Some_0.1 <= s.len(),
    decreases s.len() - i,
{
    if 0 <= i && i < s.len() && s[i] != '"' {
        match str_step(s, i) {
            None => {},
            Some((c, j)) => {
                if i < j && j <= s.len() {
                    lemma_parse_string_bounds(s, j);
                }
            },
        }
    }
}

/// One value starting at or after `i` (leading whitespace skipped),
/// with the position just after it.
pub open spec fn parse_value(s: Seq<char>, i: int) -> Option<(JsonV, int)>
    decreases s.len() - i, 1int,
{
    let j = skip_ws(s, i);
    if !(i <= j && j < s.len()) {
        None
    } else {
        let c = s[j];
        if c == 'n' {
            if s.len() - j >= 4 && s[j + 1] == 'u' && s[j + 2] == 'l' && s[j + 3] == 'l' {
                Some((JsonV::Null, j + 4))
            } else {
                None
            }
        } else if c == 't' {
            if s.len() - j >= 4 && s[j + 1] == 'r' && s[j + 2] == 'u' && s[j + 3] == 'e' {
                Some((JsonV::Bool(true), j + 4))
            } else {
                None
            }
        } else if c == 'f' {
            if s.len() - j >= 5 && s[j + 1] == 'a' && s[j + 2] == 'l' && s[j + 3] == 's' && s[j
                + 4] == 'e' {
                Some((JsonV::Bool(false), j + 5))
            } else {
                None
            }
        } else if c == '"' {
            match parse_string(s, j + 1) {
                None => None,
                Some((t, k)) => Some((JsonV::Str(t), k)),
            }
        } else if c == '[' {
            let k = skip_ws(s, j + 1);
            if j + 1 <= k && k < s.len() && s[k] == ']' {
                Some((JsonV::Arr(Seq::empty()), k + 1))
            } else {
                match parse_elems(s, j + 1) {
                    None => None,
                    Some((es, m)) => Some((JsonV::Arr(es), m)),
                }
            }
        } else if c == '{' {
            let k = skip_ws(s, j + 1);
            if j + 1 <= k && k < s.len() && s[k] == '}' {
                Some((JsonV::Obj(Seq::empty()), k + 1))
            } else {
                match parse_membs(s, j + 1) {
                    None => None,
                    Some((ms, m)) => Some((JsonV::Obj(ms), m)),
                }
            }
        } else if c == '-' || ('0' <= c && c <= '9') {
            let e = num_end(s, j);
            if j < e && e <= s.len() {
                Some((JsonV::Num(s.subrange(j, e)), e))
            } else {
                None
            }
        } else {
            None
        }
    }
}

/// One or more comma-separated values from `i` up to and including the
/// closing `]`.
pub open spec fn parse_elems(s: Seq<char>, i: int) -> Option<(Seq<JsonV>, int)>
    decreases s.len() - i, 2int,
{
    if !(0 <= i && i <= s.len()) {
        None
    } else {
        match parse_value(s, i) {
            None => None,
            Some((v, j)) => if i < j && j <= s.len() {
                let k = skip_ws(s, j);
                if !(j <= k && k < s.len()) {
                    None
                } else if s[k] == ',' {
                    match parse_elems(s, k + 1) {
                        None => None,
                        Some((rest, m)) => Some((seq![v] + rest, m)),
                    }
                } else if s[k] == ']' {
                    Some((seq![v], k + 1))
                } else {
                    None
                }
            } else {
                None
            },
        }
    }
}

/// One or more comma-separated `"key":value` members from `i` up to and
/// including the closing `}`.
pub open spec fn parse_membs(s: Seq<char>, i: int) -> Option<(Seq<(Seq<char>, JsonV)>, int)>
    decreases s.len() - i, 2int,
{
    if !(0 <= i && i <= s.len()) {
        None
    } else {
        let j0 = skip_ws(s, i);
        if !(i <= j0 && j0 < s.len() && s[j0] == '"') {
            None
        } else {
            match parse_string(s, j0 + 1) {
                None => None,
                Some((key, j1)) => if j0 < j1 && j1 <= s.len() {
                    let j2 = skip_ws(s, j1);
                    if !(j1 <= j2 && j2 < s.len() && s[j2] == ':') {
                        None
                    } else {
                        match parse_value(s, j2 + 1) {
                            None => None,
                            Some((v, j3)) => if j2 < j3 && j3 <= s.len() {
                                let k = skip_ws(s, j3);
                                if !(j3 <= k && k < s.len()) {
                                    None
                                } else if s[k] == ',' {
                                    match parse_membs(s, k + 1) {
                                        None => None,
                                        Some((rest, m)) => Some((seq![(key, v)] + rest, m)),
                                    }
                                } else if s[k] == '}' {
                                    Some((seq![(key, v)], k + 1))
                                } else {
                                    None
                                }
                            } else {
                                None
                            },
                        }
                    }
                } else {
                    None
                },
            }
        }
    }
}

/// A whole line: one value with nothing but whitespace around it.
pub open spec fn parse_json(s: Seq<char>) -> Option<JsonV> {
    match parse_value(s, 0) {
        None => None,
        Some((v, j)) => if skip_ws(s, j) == s.len() {
            Some(v)
        } else {
            None
        },
    }
}


// ---------------------------------------------------------------------------
// Round trip: decoding an encoding gives the value back
// ---------------------------------------------------------------------------

/// The pattern `p` stands in `s` starting at position `i`.
pub open spec fn matches_at(s: Seq<char>, i: int, p: Seq<char>) -> bool {
    &&& 0 <= i
    &&& i + p.len() <= s.len()
    &&& s.subrange(i, i + p.len()) == p
}

proof fn lemma_matches_index(s: Seq<char>, i: int, p: Seq<char>, k: int)
    requires
        matches_at(s, i, p),
        0 <= k < p.len(),
    ensures
        s[i + k] == p[k],
{
    assert(p[k] == s.subrange(i, i + p.len())[k]);
}

proof fn lemma_matches_split(s: Seq<char>, i: int, p: Seq<char>, q: Seq<char>)
    requires
        matches_at(s, i, p + q),
    ensures
        matches_at(s, i, p),
        matches_at(s, i + p.len(), q),
{
    let whole = s.subrange(i, i + (p + q).len());
    assert forall|k: int| 0 <= k < p.len() implies s.subrange(i, i + p.len())[k] == p[k] by {
        assert(whole[k] == (p + q)[k]);
    }
    assert(s.subrange(i, i + p.len()) =~= p);
    assert forall|k: int| 0 <= k < q.len() implies s.subrange(
        i + p.len(),
        i + p.len() + q.len(),
    )[k] == q[k] by {
        assert(whole[p.len() + k] == (p + q)[p.len() + k]);
    }
    assert(s.subrange(i + p.len(), i + p.len() + q.len()) =~= q);
}

/// An encoding is never empty, and its first character is neither
/// whitespace nor a closing bracket nor a separator.
pub proof fn lemma_enc_head(v: JsonV)
    requires
        wf(v),
    ensures
        enc(v).len() > 0,
        !is_ws(enc(v)[0]),
        enc(v)[0] != ']',
        enc(v)[0] != '}',
        enc(v)[0] != ',',
        enc(v)[0] != ':',
{
}

proof fn lemma_u8_char_round(c: char)
    requires
        (c as u32) < 0x20,
    ensures
        ((((c as u32) as int) as u8) as char) == c,
{
    let v: int = (c as u32) as int;
    assert(0 <= v < 0x20);
    assert(((v as u8) as u32) == (c as u32));
    assert(((v as u8) as char) as u32 == c as u32);
    assert(((v as u8) as char) == c);
}

pub proof fn lemma_hex_digit_val(n: int)
    requires
        0 <= n < 16,
    ensures
        hex_val(hex_digit(n)) == n,
{
}

/// Greedy number scanning stops exactly at the literal's end.
proof fn lemma_num_end_exact(l: Seq<char>, s: Seq<char>, i: int)
    requires
        matches_at(s, i, l),
        forall|k: int| 0 <= k < l.len() ==> num_char(#[trigger] l[k]),
        i + l.len() == s.len() || !num_char(s[i + l.len()]),
    ensures
        num_end(s, i) == i + l.len(),
    decreases l.len(),
{
    if l.len() == 0 {
    } else {
        lemma_matches_index(s, i, l, 0);
        assert(num_char(s[i]));
        assert(l =~= seq![l[0]] + l.drop_first());
        lemma_matches_split(s, i, seq![l[0]], l.drop_first());
        lemma_num_end_exact(l.drop_first(), s, i + 1);
    }
}

/// Parsing the escaped body of a string, up to and including its closing
/// quote, recovers the original characters.
proof fn lemma_parse_enc_str(t: Seq<char>, s: Seq<char>, i: int)
    requires
        matches_at(s, i, enc_str(t) + seq!['"']),
    ensures
        parse_string(s, i) == Some((t, i + enc_str(t).len() + 1)),
    decreases t.len(),
{
    let pat = enc_str(t) + seq!['"'];
    if t.len() == 0 {
        assert(enc_str(t) =~= Seq::<char>::empty());
        assert(pat =~= seq!['"']);
        lemma_matches_index(s, i, pat, 0);
        assert(s[i] == '"');
        assert(parse_string(s, i) =~~= Some((t, i + enc_str(t).len() + 1)));
    } else {
        let c = t[0];
        let e = esc(c);
        let rest = enc_str(t.drop_first());
        assert(enc_str(t) == e + rest);
        assert(pat =~= e + (rest + seq!['"']));
        lemma_matches_split(s, i, e, rest + seq!['"']);
        let j = i + e.len();
        if c == '"' || c == '\\' {
            lemma_matches_index(s, i, e, 0);
            lemma_matches_index(s, i, e, 1);
            assert(s[i] == '\\' && s[i + 1] == c);
            assert(str_step(s, i) == Some((c, i + 2)));
        } else if c == '\n' || c == '\r' || c == '\t' {
            lemma_matches_index(s, i, e, 0);
            lemma_matches_index(s, i, e, 1);
            assert(s[i] == '\\');
            assert(str_step(s, i) == Some((c, i + 2)));
        } else if (c as u32) < 0x20 {
            lemma_matches_index(s, i, e, 0);
            lemma_matches_index(s, i, e, 1);
            lemma_matches_index(s, i, e, 2);
            lemma_matches_index(s, i, e, 3);
            lemma_matches_index(s, i, e, 4);
            lemma_matches_index(s, i, e, 5);
            assert(s[i] == '\\' && s[i + 1] == 'u' && s[i + 2] == '0' && s[i + 3] == '0');
            assert(s[i + 4] == hex_digit((c as u32) as int / 16));
            assert(s[i + 5] == hex_digit((c as u32) as int % 16));
            lemma_hex_digit_val((c as u32) as int / 16);
            lemma_hex_digit_val((c as u32) as int % 16);
            let v = hex_val(s[i + 2]) * 4096 + hex_val(s[i + 3]) * 256 + hex_val(s[i + 4]) * 16
                + hex_val(s[i + 5]);
            assert(v == (c as u32) as int);
            lemma_u8_char_round(c);
            assert((v as u8) == (((c as u32) as int) as u8));
            assert(((v as u8) as char) == c);
            assert(str_step(s, i) == Some((c, i + 6)));
        } else {
            assert(e == seq![c]);
            lemma_matches_index(s, i, e, 0);
            assert(s[i] == c);
            assert(str_step(s, i) == Some((c, i + 1)));
        }
        assert(str_step(s, i) == Some((c, j)));
        assert(s[i] != '"');
        lemma_parse_enc_str(t.drop_first(), s, j);
        assert(parse_string(s, j) == Some((t.drop_first(), j + rest.len() + 1)));
        assert(seq![c] + t.drop_first() =~= t);
        assert(parse_string(s, i) =~~= Some((t, i + enc_str(t).len() + 1)));
    }
}

/// Parsing at the start of an embedded encoding recovers the value and
/// stops exactly at its end.
#[verifier::rlimit(100)]
pub proof fn lemma_parse_enc_value(v: JsonV, s: Seq<char>, i: int)
    requires
        wf(v),
        matches_at(s, i, enc(v)),
        i + enc(v).len() == s.len() || !num_char(s[i + enc(v).len()]),
    ensures
        parse_value(s, i) == Some((v, i + enc(v).len())),
    decreases v,
{
    lemma_enc_head(v);
    lemma_matches_index(s, i, enc(v), 0);
    assert(s[i] == enc(v)[0]);
    assert(skip_ws(s, i) == i);
    match v {
        JsonV::Null => {
            lemma_matches_index(s, i, enc(v), 1);
            lemma_matches_index(s, i, enc(v), 2);
            lemma_matches_index(s, i, enc(v), 3);
            assert(s[i] == 'n' && s[i + 1] == 'u' && s[i + 2] == 'l' && s[i + 3] == 'l');
            assert(parse_value(s, i) =~~= Some((v, i + enc(v).len())));
        },
        JsonV::Bool(b) => {
            lemma_matches_index(s, i, enc(v), 1);
            lemma_matches_index(s, i, enc(v), 2);
            lemma_matches_index(s, i, enc(v), 3);
            if !b {
                lemma_matches_index(s, i, enc(v), 4);
            }
            assert(parse_value(s, i) =~~= Some((v, i + enc(v).len())));
        },
        JsonV::Num(l) => {
            assert(s[i] == l[0]);
            assert(s[i] != 'n' && s[i] != 't' && s[i] != 'f' && s[i] != '"' && s[i] != '['
                && s[i] != '{');
            lemma_num_end_exact(l, s, i);
            assert(s.subrange(i, i + l.len()) == l);
            assert(parse_value(s, i) =~~= Some((v, i + enc(v).len())));
        },
        JsonV::Str(t) => {
            assert(s[i] == '"');
            assert(enc(v) =~= seq!['"'] + (enc_str(t) + seq!['"']));
            lemma_matches_split(s, i, seq!['"'], enc_str(t) + seq!['"']);
            lemma_parse_enc_str(t, s, i + 1);
            assert(parse_value(s, i) =~~= Some((v, i + enc(v).len())));
        },
        JsonV::Arr(a) => {
            assert(s[i] == '[');
            if a.len() == 0 {
                assert(enc(v) =~= seq!['[', ']']);
                lemma_matches_index(s, i, enc(v), 1);
                assert(s[i + 1] == ']');
                assert(skip_ws(s, i + 1) == i + 1);
                assert(a =~= Seq::<JsonV>::empty());
                assert(v =~= JsonV::Arr(Seq::<JsonV>::empty()));
                assert(parse_value(s, i) =~~= Some((v, i + enc(v).len())));
            } else {
                let body = enc_elems(a) + seq![']'];
                assert(enc(v) =~= seq!['['] + body);
                lemma_matches_split(s, i, seq!['['], body);
                assert(decreases_to!(v => a));
                lemma_parse_enc_elems(a, s, i + 1);
                assert(parse_elems(s, i + 1) == Some((a, i + 1 + enc_elems(a).len() + 1)));
                // the character after the bracket opens the first element
                assert(wf_seq(a));
                assert(wf(a[0]));
                lemma_enc_head(a[0]);
                if a.len() == 1 {
                    assert(enc_elems(a)[0] == enc(a[0])[0]);
                } else {
                    assert(enc_elems(a) == enc(a[0]) + seq![','] + enc_elems(a.drop_first()));
                    assert(enc_elems(a)[0] == enc(a[0])[0]);
                }
                lemma_matches_index(s, i + 1, body, 0);
                assert(s[i + 1] == enc(a[0])[0]);
                assert(!is_ws(s[i + 1]) && s[i + 1] != ']');
                assert(skip_ws(s, i + 1) == i + 1);
                assert(parse_value(s, i) =~~= Some((v, i + enc(v).len())));
            }
        },
        JsonV::Obj(m) => {
            assert(s[i] == '{');
            if m.len() == 0 {
                assert(enc(v) =~= seq!['{', '}']);
                lemma_matches_index(s, i, enc(v), 1);
                assert(s[i + 1] == '}');
                assert(skip_ws(s, i + 1) == i + 1);
                assert(m =~= Seq::<(Seq<char>, JsonV)>::empty());
                assert(v =~= JsonV::Obj(Seq::<(Seq<char>, JsonV)>::empty()));
                assert(parse_value(s, i) =~~= Some((v, i + enc(v).len())));
            } else {
                let body = enc_membs(m) + seq!['}'];
                assert(enc(v) =~= seq!['{'] + body);
                lemma_matches_split(s, i, seq!['{'], body);
                assert(decreases_to!(v => m));
                lemma_parse_enc_membs(m, s, i + 1);
                assert(parse_membs(s, i + 1) == Some((m, i + 1 + enc_membs(m).len() + 1)));
                if m.len() == 1 {
                    assert(enc_membs(m)[0] == '"');
                } else {
                    assert(enc_membs(m)[0] == '"');
                }
                lemma_matches_index(s, i + 1, body, 0);
                assert(s[i + 1] == '"');
                assert(skip_ws(s, i + 1) == i + 1);
                assert(parse_value(s, i) =~~= Some((v, i + enc(v).len())));
            }
        },
    }
}

proof fn lemma_parse_enc_elems(a: Seq<JsonV>, s: Seq<char>, i: int)
    requires
        a.len() > 0,
        wf(JsonV::Arr(a)),
        matches_at(s, i, enc_elems(a) + seq![']']),
    ensures
        parse_elems(s, i) == Some((a, i + enc_elems(a).len() + 1)),
    decreases a,
{
    assert(wf_seq(a));
    assert(wf(a[0]));
    let e0 = enc(a[0]);
    lemma_enc_head(a[0]);
    if a.len() == 1 {
        assert(enc_elems(a) == e0);
        lemma_matches_split(s, i, e0, seq![']']);
        lemma_matches_index(s, i + e0.len(), seq![']'], 0);
        let j = i + e0.len();
        assert(s[j] == ']');
        assert(decreases_to!(a => a[0]));
        lemma_parse_enc_value(a[0], s, i);
        assert(skip_ws(s, j) == j);
        assert(seq![a[0]] =~= a);
        assert(parse_elems(s, i) =~~= Some((a, i + enc_elems(a).len() + 1)));
    } else {
        let rest = enc_elems(a.drop_first());
        assert(enc_elems(a) == e0 + seq![','] + rest);
        assert(enc_elems(a) + seq![']'] =~= e0 + (seq![','] + (rest + seq![']'])));
        lemma_matches_split(s, i, e0, seq![','] + (rest + seq![']']));
        let j = i + e0.len();
        lemma_matches_split(s, j, seq![','], rest + seq![']']);
        lemma_matches_index(s, j, seq![','], 0);
        assert(s[j] == ',');
        assert(decreases_to!(a => a[0]));
        lemma_parse_enc_value(a[0], s, i);
        assert(skip_ws(s, j) == j);
        assert(wf_seq(a.drop_first()));
        assert(wf(JsonV::Arr(a.drop_first())));
        lemma_parse_enc_elems(a.drop_first(), s, j + 1);
        assert(parse_elems(s, j + 1) == Some((a.drop_first(), j + 1 + rest.len() + 1)));
        assert(seq![a[0]] + a.drop_first() =~= a);
        assert(parse_elems(s, i) =~~= Some((a, i + enc_elems(a).len() + 1)));
    }
}

proof fn lemma_parse_enc_membs(m: Seq<(Seq<char>, JsonV)>, s: Seq<char>, i: int)
    requires
        m.len() > 0,
        wf(JsonV::Obj(m)),
        matches_at(s, i, enc_membs(m) + seq!['}']),
    ensures
        parse_membs(s, i) == Some((m, i + enc_membs(m).len() + 1)),
    decreases m,
{
    let key = m[0].0;
    let v0 = m[0].1;
    assert(wf_membs(m));
    assert(wf(v0));
    let ks = enc_str(key);
    let e0 = enc_memb(key, v0);
    assert(e0 == seq!['"'] + ks + seq!['"', ':'] + enc(v0));
    let tail: Seq<char> = if m.len() == 1 {
        seq!['}']
    } else {
        seq![','] + (enc_membs(m.drop_first()) + seq!['}'])
    };
    if m.len() == 1 {
        assert(enc_membs(m) == e0);
    } else {
        assert(enc_membs(m) == e0 + seq![','] + enc_membs(m.drop_first()));
    }
    assert(enc_membs(m) + seq!['}'] =~= seq!['"'] + ((ks + seq!['"']) + (seq![':'] + (enc(v0)
        + tail))));
    lemma_matches_split(s, i, seq!['"'], (ks + seq!['"']) + (seq![':'] + (enc(v0) + tail)));
    lemma_matches_index(s, i, seq!['"'], 0);
    assert(s[i] == '"');
    assert(skip_ws(s, i) == i);
    lemma_matches_split(s, i + 1, ks + seq!['"'], seq![':'] + (enc(v0) + tail));
    lemma_parse_enc_str(key, s, i + 1);
    let j1 = i + 1 + ks.len() + 1;
    assert(parse_string(s, i + 1) == Some((key, j1)));
    lemma_matches_split(s, j1, seq![':'], enc(v0) + tail);
    lemma_matches_index(s, j1, seq![':'], 0);
    assert(s[j1] == ':');
    assert(skip_ws(s, j1) == j1);
    let vstart = j1 + 1;
    lemma_matches_split(s, vstart, enc(v0), tail);
    let j3 = vstart + enc(v0).len();
    lemma_matches_index(s, j3, tail, 0);
    assert(decreases_to!(m => m[0]));
    assert(decreases_to!(m[0] => m[0].1));
    if m.len() == 1 {
        assert(s[j3] == '}');
        lemma_parse_enc_value(v0, s, vstart);
        assert(skip_ws(s, j3) == j3);
        assert(seq![(key, v0)] =~= m);
        assert(j3 + 1 == i + enc_membs(m).len() + 1);
        assert(parse_membs(s, i) =~~= Some((m, i + enc_membs(m).len() + 1)));
    } else {
        assert(s[j3] == ',');
        lemma_parse_enc_value(v0, s, vstart);
        assert(skip_ws(s, j3) == j3);
        let rest = enc_membs(m.drop_first());
        assert(tail =~= seq![','] + (rest + seq!['}']));
        lemma_matches_split(s, j3, seq![','], rest + seq!['}']);
        assert(wf_membs(m.drop_first()));
        assert(wf(JsonV::Obj(m.drop_first())));
        lemma_parse_enc_membs(m.drop_first(), s, j3 + 1);
        assert(parse_membs(s, j3 + 1) == Some((m.drop_first(), j3 + 1 + rest.len() + 1)));
        assert(seq![(key, v0)] + m.drop_first() =~= m);
        assert(parse_membs(s, i) =~~= Some((m, i + enc_membs(m).len() + 1)));
    }
}

/// Round trip: decoding the encoding of any well-formed value gives the
/// value back, with no field lost, changed or reordered.
pub proof fn lemma_round_trip(v: JsonV)
    requires
        wf(v),
    ensures
        parse_json(enc(v)) == Some(v),
{
    let s = enc(v);
    assert(s.subrange(0, s.len() as int) =~= s);
    lemma_parse_enc_value(v, s, 0);
    assert(parse_value(s, 0) == Some((v, s.len() as int)));
    assert(skip_ws(s, s.len() as int) == s.len());
}






// ---------------------------------------------------------------------------
// The executable decoder
// ---------------------------------------------------------------------------

fn ex_skip_ws(s: &Vec<char>, i: usize) -> (r: usize)
    requires
        i <= s.len(),
    ensures
        r as int == skip_ws(s@, i as int),
        i <= r <= s.len(),
    decreases s.len() - i,
{
    if i < s.len() {
        let c = s[i];
        if c == ' ' || c == '\n' || c == '\r' || c == '\t' {
            return ex_skip_ws(s, i + 1);
        }
    }
    i
}

fn ex_num_end(s: &Vec<char>, i: usize) -> (r: usize)
    requires
        i <= s.len(),
    ensures
        r as int == num_end(s@, i as int),
        i <= r <= s.len(),
    decreases s.len() - i,
{
    if i < s.len() {
        let c = s[i];
        if ('0' <= c && c <= '9') || c == '-' || c == '+' || c == '.' || c == 'e' || c == 'E' {
            return ex_num_end(s, i + 1);
        }
    }
    i
}

fn ex_hex_val(c: char) -> (r: i32)
    ensures
        r as int == hex_val(c),
{
    if '0' <= c && c <= '9' {
        (c as u32 as i32) - ('0' as u32 as i32)
    } else if 'a' <= c && c <= 'f' {
        (c as u32 as i32) - ('a' as u32 as i32) + 10
    } else if 'A' <= c && c <= 'F' {
        (c as u32 as i32) - ('A' as u32 as i32) + 10
    } else {
        -1
    }
}

/// One unit of string content: a plain character or an escape.
fn ex_str_step(s: &Vec<char>, i: usize) -> (r: Option<(char, usize)>)
    requires
        i <= s.len(),
    ensures
        match r {
            None => str_step(s@, i as int) is None,
            Some((c, j)) => str_step(s@, i as int) == Some((c, j as int)) && i < j <= s.len(),
        },
{
    if i >= s.len() {
        return None;
    }
    let c = s[i];
    if c == '\\' {
        if i + 1 >= s.len() {
            return None;
        }
        let e = s[i + 1];
        if e == '"' || e == '\\' || e == '/' {
            Some((e, i + 2))
        } else if e == 'n' {
            Some(('\n', i + 2))
        } else if e == 'r' {
            Some(('\r', i + 2))
        } else if e == 't' {
            Some(('\t', i + 2))
        } else if e == 'b' {
            Some(('\u{8}', i + 2))
        } else if e == 'f' {
            Some(('\u{c}', i + 2))
        } else if e == 'u' {
            if s.len() - i >= 6 {
                let h1 = ex_hex_val(s[i + 2]);
                let h2 = ex_hex_val(s[i + 3]);
                let h3 = ex_hex_val(s[i + 4]);
                let h4 = ex_hex_val(s[i + 5]);
                if h1 >= 0 && h2 >= 0 && h3 >= 0 && h4 >= 0 {
                    let v = h1 * 4096 + h2 * 256 + h3 * 16 + h4;
                    if v <= 0xFF {
                        Some(((v as u8) as char, i + 6))
                    } else {
                        None
                    }
                } else {
                    None
                }
            } else {
                None
            }
        } else {
            None
        }
    } else if c != '"' && (c as u32) >= 0x20 {
        Some((c, i + 1))
    } else {
        None
    }
}

/// String content from `i` (after the opening quote) up to and including
/// the closing quote.
#[verifier::loop_isolation(false)]
fn ex_parse_string(s: &Vec<char>, i0: usize) -> (r: Option<(Vec<char>, usize)>)
    requires
        i0 <= s.len(),
    ensures
        match r {
            None => parse_string(s@, i0 as int) is None,
            Some((t, k)) => parse_string(s@, i0 as int) == Some((t@, k as int)) && i0 < k
                <= s.len(),
        },
{
    let mut acc: Vec<char> = Vec::new();
    let mut i: usize = i0;
    loop
        invariant
            i0 <= i <= s.len(),
            forall|t: Seq<char>, k: int|
                parse_string(s@, i as int) == Some::<(Seq<char>, int)>((t, k)) ==> parse_string(
                    s@,
                    i0 as int,
                ) == Some::<(Seq<char>, int)>((acc@ + t, k)),
            parse_string(s@, i as int) is None ==> parse_string(s@, i0 as int) is None,
        decreases s.len() - i,
    {
        if i >= s.len() {
            return None;
        }
        if s[i] == '"' {
            proof {
                assert(parse_string(s@, i as int) == Some((Seq::<char>::empty(), i + 1 as int)));
                assert(acc@ + Seq::<char>::empty() =~= acc@);
            }
            return Some((acc, i + 1));
        }
        match ex_str_step(s, i) {
            None => {
                return None;
            },
            Some((c, j)) => {
                proof {
                    assert forall|t: Seq<char>, k: int|
                        parse_string(s@, j as int) == Some::<(Seq<char>, int)>((t, k)) implies
                        parse_string(s@, i0 as int) == Some::<(Seq<char>, int)>(
                            (acc@.push(c) + t, k),
                        ) by {
                        assert(parse_string(s@, i as int) == Some::<(Seq<char>, int)>(
                            (seq![c] + t, k),
                        ));
                        lemma_parse_string_bounds(s@, j as int);
                        assert(acc@ + (seq![c] + t) =~= acc@.push(c) + t);
                    }
                    assert(parse_string(s@, j as int) is None ==> parse_string(s@, i as int)
                        is None);
                }
                acc.push(c);
                i = j;
            },
        }
    }
}

/// One value at or after `i`.
#[verifier::loop_isolation(false)]
#[verifier::rlimit(100)]
pub fn ex_parse_value(s: &Vec<char>, i: usize) -> (r: Option<(Json, usize)>)
    requires
        i <= s.len(),
    ensures
        match r {
            None => parse_value(s@, i as int) is None,
            Some((v, m)) => parse_value(s@, i as int) == Some((v@, m as int)) && i < m
                <= s.len(),
        },
    decreases s.len() - i, 1int,
{
    let j = ex_skip_ws(s, i);
    if j >= s.len() {
        return None;
    }
    let c = s[j];
    if c == 'n' {
        if s.len() - j >= 4 && s[j + 1] == 'u' && s[j + 2] == 'l' && s[j + 3] == 'l' {
            Some((Json::Null, j + 4))
        } else {
            None
        }
    } else if c == 't' {
        if s.len() - j >= 4 && s[j + 1] == 'r' && s[j + 2] == 'u' && s[j + 3] == 'e' {
            Some((Json::Bool(true), j + 4))
        } else {
            None
        }
    } else if c == 'f' {
        if s.len() - j >= 5 && s[j + 1] == 'a' && s[j + 2] == 'l' && s[j + 3] == 's' && s[j + 4]
            == 'e' {
            Some((Json::Bool(false), j + 5))
        } else {
            None
        }
    } else if c == '"' {
        match ex_parse_string(s, j + 1) {
            None => None,
            Some((t, k)) => {
                let st = crate::strutil::chars_to_string(&t);
                Some((Json::Str(st), k))
            },
        }
    } else if c == '[' {
        let k = ex_skip_ws(s, j + 1);
        if k < s.len() && s[k] == ']' {
            proof {
                assert(jv_seq(Seq::<Json>::empty()) =~= Seq::<JsonV>::empty());
            }
            Some((Json::Arr(Vec::new()), k + 1))
        } else {
            match ex_parse_elems(s, j + 1) {
                None => None,
                Some((es, m)) => Some((Json::Arr(es), m)),
            }
        }
    } else if c == '{' {
        let k = ex_skip_ws(s, j + 1);
        if k < s.len() && s[k] == '}' {
            proof {
                assert(jv_membs(Seq::<(String, Json)>::empty()) =~= Seq::<(Seq<char>,
                    JsonV)>::empty());
            }
            Some((Json::Obj(Vec::new()), k + 1))
        } else {
            match ex_parse_membs(s, j + 1) {
                None => None,
                Some((ms, m)) => Some((Json::Obj(ms), m)),
            }
        }
    } else if c == '-' || ('0' <= c && c <= '9') {
        let e = ex_num_end(s, j);
        if j < e {
            let mut lit: Vec<char> = Vec::new();
            let mut p: usize = j;
            while p < e
                invariant
                    j <= p <= e <= s.len(),
                    lit@ == s@.subrange(j as int, p as int),
                decreases e - p,
            {
                lit.push(s[p]);
                p = p + 1;
                proof {
                    assert(lit@ =~= s@.subrange(j as int, p as int));
                }
            }
            let ls = crate::strutil::chars_to_string(&lit);
            Some((Json::Num(ls), e))
        } else {
            None
        }
    } else {
        None
    }
}

/// Comma-separated values up to and including the closing bracket.
#[verifier::loop_isolation(false)]
#[verifier::rlimit(100)]
fn ex_parse_elems(s: &Vec<char>, i0: usize) -> (r: Option<(Vec<Json>, usize)>)
    requires
        i0 <= s.len(),
    ensures
        match r {
            None => parse_elems(s@, i0 as int) is None,
            Some((es, m)) => parse_elems(s@, i0 as int) == Some((jv_seq(es@), m as int)) && i0
                < m <= s.len(),
        },
    decreases s.len() - i0, 2int,
{
    let mut acc: Vec<Json> = Vec::new();
    let mut i: usize = i0;
    loop
        invariant
            i0 <= i <= s.len(),
            forall|t: Seq<JsonV>, k: int|
                parse_elems(s@, i as int) == Some::<(Seq<JsonV>, int)>((t, k)) ==> parse_elems(
                    s@,
                    i0 as int,
                ) == Some::<(Seq<JsonV>, int)>((jv_seq(acc@) + t, k)),
            parse_elems(s@, i as int) is None ==> parse_elems(s@, i0 as int) is None,
        decreases s.len() - i, 0int,
    {
        let step = ex_parse_value(s, i);
        match step {
            None => {
                return None;
            },
            Some((v, j)) => {
                let k = ex_skip_ws(s, j);
                proof {
                    lemma_jv_seq(acc@);
                    lemma_jv_seq(acc@.push(v));
                    assert(acc@.push(v).drop_last() =~= acc@);
                    assert(jv_seq(acc@.push(v)) =~= jv_seq(acc@).push(v@));
                }
                if k < s.len() && s[k] == ',' {
                    proof {
                        assert forall|t: Seq<JsonV>, k2: int|
                            parse_elems(s@, k + 1 as int) == Some::<(Seq<JsonV>, int)>((
                                t,
                                k2,
                            )) implies parse_elems(s@, i0 as int) == Some::<(Seq<JsonV>, int)>(
                            (jv_seq(acc@.push(v)) + t, k2),
                        ) by {
                            assert(parse_elems(s@, i as int) == Some::<(Seq<JsonV>, int)>(
                                (seq![v@] + t, k2),
                            ));
                            assert(jv_seq(acc@) + (seq![v@] + t) =~= jv_seq(acc@.push(v)) + t);
                        }
                    }
                    acc.push(v);
                    i = k + 1;
                } else if k < s.len() && s[k] == ']' {
                    proof {
                        assert(parse_elems(s@, i as int) == Some::<(Seq<JsonV>, int)>(
                            (seq![v@], k + 1 as int),
                        ));
                        assert(jv_seq(acc@) + seq![v@] =~= jv_seq(acc@.push(v)));
                    }
                    acc.push(v);
                    return Some((acc, k + 1));
                } else {
                    return None;
                }
            },
        }
    }
}

/// Comma-separated `"key":value` members up to and including the closing
/// brace.
#[verifier::loop_isolation(false)]
#[verifier::rlimit(100)]
fn ex_parse_membs(s: &Vec<char>, i0: usize) -> (r: Option<(Vec<(String, Json)>, usize)>)
    requires
        i0 <= s.len(),
    ensures
        match r {
            None => parse_membs(s@, i0 as int) is None,
            Some((ms, m)) => parse_membs(s@, i0 as int) == Some((jv_membs(ms@), m as int))
                && i0 < m <= s.len(),
        },
    decreases s.len() - i0, 2int,
{
    let mut acc: Vec<(String, Json)> = Vec::new();
    let mut i: usize = i0;
    loop
        invariant
            i0 <= i <= s.len(),
            forall|t: Seq<(Seq<char>, JsonV)>, k: int|
                parse_membs(s@, i as int) == Some::<(Seq<(Seq<char>, JsonV)>, int)>((t, k))
                    ==> parse_membs(s@, i0 as int) == Some::<(Seq<(Seq<char>, JsonV)>, int)>(
                    (jv_membs(acc@) + t, k),
                ),
            parse_membs(s@, i as int) is None ==> parse_membs(s@, i0 as int) is None,
        decreases s.len() - i, 0int,
    {
        let j0 = ex_skip_ws(s, i);
        if !(j0 < s.len() && s[j0] == '"') {
            return None;
        }
        let key = match ex_parse_string(s, j0 + 1) {
            None => {
                return None;
            },
            Some(kv) => kv,
        };
        let (kt, j1) = key;
        let j2 = ex_skip_ws(s, j1);
        if !(j2 < s.len() && s[j2] == ':') {
            return None;
        }
        let step = ex_parse_value(s, j2 + 1);
        match step {
            None => {
                return None;
            },
            Some((v, j3)) => {
                let k = ex_skip_ws(s, j3);
                let ks = crate::strutil::chars_to_string(&kt);
                proof {
                    lemma_jv_membs(acc@);
                    lemma_jv_membs(acc@.push((ks, v)));
                    assert(jv_membs(acc@.push((ks, v))) =~= jv_membs(acc@).push((kt@, v@)));
                }
                if k < s.len() && s[k] == ',' {
                    proof {
                        assert forall|t: Seq<(Seq<char>, JsonV)>, k2: int|
                            parse_membs(s@, k + 1 as int) == Some::<(Seq<(Seq<char>, JsonV)>,
                                int,
                            )>((t, k2)) implies parse_membs(s@, i0 as int) == Some::<(Seq<(Seq<
                                char,
                            >, JsonV)>, int)>((jv_membs(acc@.push((ks, v))) + t, k2)) by {
                            assert(parse_membs(s@, i as int) == Some::<(Seq<(Seq<char>, JsonV)>,
                                int,
                            )>((seq![(kt@, v@)] + t, k2)));
                            assert(jv_membs(acc@) + (seq![(kt@, v@)] + t) =~= jv_membs(
                                acc@.push((ks, v)),
                            ) + t);
                        }
                    }
                    acc.push((ks, v));
                    i = k + 1;
                } else if k < s.len() && s[k] == '}' {
                    proof {
                        assert(parse_membs(s@, i as int) == Some::<(Seq<(Seq<char>, JsonV)>,
                            int,
                        )>((seq![(kt@, v@)], k + 1 as int)));
                        assert(jv_membs(acc@) + seq![(kt@, v@)] =~= jv_membs(acc@.push((ks, v))));
                    }
                    acc.push((ks, v));
                    return Some((acc, k + 1));
                } else {
                    return None;
                }
            },
        }
    }
}

/// Decodes one full line of text as a wire value.
pub fn decode_json(line: &str) -> (r: Option<Json>)
    ensures
        match r {
            None => parse_json(line@) is None,
            Some(v) => parse_json(line@) == Some(v@),
        },
{
    let cs = crate::strutil::str_to_chars(line);
    match ex_parse_value(&cs, 0) {
        None => None,
        Some((v, m)) => {
            let e = ex_skip_ws(&cs, m);
            if e == cs.len() {
                Some(v)
            } else {
                None
            }
        },
    }
}


impl Clone for Json {
    /// A structural copy: the clone stands for the same value.
    fn clone(&self) -> (res: Json)
        ensures
            res@ == self@,
        decreases *self,
    {
        match self {
            Json::Null => Json::Null,
            Json::Bool(b) => Json::Bool(*b),
            Json::Num(l) => Json::Num(l.clone()),
            Json::Str(s) => Json::Str(s.clone()),
            Json::Arr(a) => {
                let mut out: Vec<Json> = Vec::new();
                let mut i: usize = 0;
                #[verifier::loop_isolation(false)]
                while i < a.len()
                    invariant
                        0 <= i <= a.len(),
                        out@.len() == i,
                        forall|k: int| 0 <= k < i ==> #[trigger] out@[k].jv() == a@[k].jv(),
                    decreases a.len() - i,
                {
                    proof {
                        assert(decreases_to!(*self => *a));
                        assert(decreases_to!(*a => a@));
                        assert(decreases_to!(a@ => a@[i as int]));
                    }
                    out.push(a[i].clone());
                    i = i + 1;
                }
                proof {
                    lemma_jv_seq(out@);
                    lemma_jv_seq(a@);
                    assert(jv_seq(out@) =~= jv_seq(a@));
                }
                Json::Arr(out)
            },
            Json::Obj(m) => {
                let mut out: Vec<(String, Json)> = Vec::new();
                let mut i: usize = 0;
                #[verifier::loop_isolation(false)]
                while i < m.len()
                    invariant
                        0 <= i <= m.len(),
                        out@.len() == i,
                        forall|k: int| 0 <= k < i ==> #[trigger] out@[k].0@ == m@[k].0@
                            && out@[k].1.jv() == m@[k].1.jv(),
                    decreases m.len() - i,
                {
                    proof {
                        assert(decreases_to!(*self => *m));
                        assert(decreases_to!(*m => m@));
                        assert(decreases_to!(m@ => m@[i as int]));
                        assert(decreases_to!(m@[i as int] => m@[i as int].1));
                    }
                    let ks = m[i].0.clone();
                    let vs = m[i].1.clone();
                    out.push((ks, vs));
                    i = i + 1;
                }
                proof {
                    lemma_jv_membs(out@);
                    lemma_jv_membs(m@);
                    assert(jv_membs(out@) =~= jv_membs(m@));
                }
                Json::Obj(out)
            },
        }
    }
}

} // verus!
