//! Per-invocation flags: JSON output, full-page capture, headed mode,
//! debug mode and the session name, read from the raw argument list; and
//! the stripping of flag tokens before command translation.

use vstd::prelude::*;

verus! {

/// Per-invocation configuration, immutable once parsed.
pub struct Flags {
    pub json: bool,
    pub full: bool,
    pub headed: bool,
    pub debug: bool,
    pub session: String,
}

/// The mathematical form of [`Flags`].
#[verifier::ext_equal]
pub struct FlagsV {
    pub json: bool,
    pub full: bool,
    pub headed: bool,
    pub debug: bool,
    pub session: Seq<char>,
}

impl View for Flags {
    type V = FlagsV;

    open spec fn view(&self) -> FlagsV {
        FlagsV {
            json: self.json,
            full: self.full,
            headed: self.headed,
            debug: self.debug,
            session: self.session@,
        }
    }
}

/// How the argument scan folds flags left to right from position `i`:
/// `--session` consumes the following token as the session name when
/// there is one; unknown tokens change nothing.
pub open spec fn spec_flags(args: Seq<Seq<char>>, i: int, cur: FlagsV) -> FlagsV
    decreases args.len() - i,
{
    if !(0 <= i < args.len()) {
        cur
    } else if args[i] == "--json"@ {
        spec_flags(args, i + 1, FlagsV { json: true, ..cur })
    } else if args[i] == "--full"@ || args[i] == "-f"@ {
        spec_flags(args, i + 1, FlagsV { full: true, ..cur })
    } else if args[i] == "--headed"@ {
        spec_flags(args, i + 1, FlagsV { headed: true, ..cur })
    } else if args[i] == "--debug"@ {
        spec_flags(args, i + 1, FlagsV { debug: true, ..cur })
    } else if args[i] == "--session"@ {
        if i + 1 < args.len() {
            spec_flags(args, i + 2, FlagsV { session: args[i + 1], ..cur })
        } else {
            spec_flags(args, i + 1, cur)
        }
    } else {
        spec_flags(args, i + 1, cur)
    }
}

/// Reads the flags out of the raw argument list. `default_session` is
/// the session name used when no `--session` flag occurs (the caller
/// takes it from the environment, or uses the built-in default).
#[verifier::loop_isolation(false)]
pub fn parse_flags(args: &Vec<String>, default_session: String) -> (r: Flags)
    ensures
        r@ == spec_flags(
            args.deep_view(),
            0,
            FlagsV {
                json: false,
                full: false,
                headed: false,
                debug: false,
                session: default_session@,
            },
        ),
{
    let ghost dv = args.deep_view();
    let ghost init = FlagsV {
        json: false,
        full: false,
        headed: false,
        debug: false,
        session: default_session@,
    };
    let mut flags = Flags {
        json: false,
        full: false,
        headed: false,
        debug: false,
        session: default_session,
    };
    let mut i: usize = 0;
    while i < args.len()
        invariant
            0 <= i <= args.len(),
            spec_flags(dv, 0, init) == spec_flags(dv, i as int, flags@),
        decreases args.len() - i,
    {
        let a = &args[i];
        proof {
            assert(dv[i as int] == a@);
        }
        if crate::strutil::tok_is(a, "--json") {
            flags.json = true;
        } else if crate::strutil::tok_is(a, "--full") || crate::strutil::tok_is(a, "-f") {
            flags.full = true;
        } else if crate::strutil::tok_is(a, "--headed") {
            flags.headed = true;
        } else if crate::strutil::tok_is(a, "--debug") {
            flags.debug = true;
        } else if crate::strutil::tok_is(a, "--session") {
            if i + 1 < args.len() {
                flags.session = args[i + 1].clone();
                proof {
                    assert(dv[i + 1 as int] == args@[i + 1 as int]@);
                }
                i = i + 1;
            }
        }
        i = i + 1;
    }
    flags
}

/// True when the token begins with two dashes.
pub open spec fn spec_dashdash(s: Seq<char>) -> bool {
    s.len() >= 2 && s[0] == '-' && s[1] == '-'
}

/// The tokens that remain for command translation: `--session` and its
/// value are dropped, as is every `--`-prefixed token and the short
/// full-page flag; all other tokens stay, in order.
pub open spec fn spec_clean(args: Seq<Seq<char>>, i: int, skip: bool) -> Seq<Seq<char>>
    decreases args.len() - i,
{
    if !(0 <= i < args.len()) {
        Seq::empty()
    } else if skip {
        spec_clean(args, i + 1, false)
    } else if args[i] == "--session"@ {
        spec_clean(args, i + 1, true)
    } else if !spec_dashdash(args[i]) && args[i] != "-f"@ {
        seq![args[i]] + spec_clean(args, i + 1, false)
    } else {
        spec_clean(args, i + 1, false)
    }
}

/// Strips flag tokens from the argument list, keeping the command verb
/// and its arguments.
#[verifier::loop_isolation(false)]
pub fn clean_args(args: &Vec<String>) -> (r: Vec<String>)
    ensures
        r.deep_view() == spec_clean(args.deep_view(), 0, false),
{
    let ghost dv = args.deep_view();
    let mut result: Vec<String> = Vec::new();
    let mut skip_next = false;
    let mut i: usize = 0;
    while i < args.len()
        invariant
            0 <= i <= args.len(),
            spec_clean(dv, 0, false) == result.deep_view() + spec_clean(
                dv,
                i as int,
                skip_next,
            ),
        decreases args.len() - i,
    {
        let a = &args[i];
        proof {
            assert(dv[i as int] == a@);
        }
        if skip_next {
            skip_next = false;
        } else if crate::strutil::tok_is(a, "--session") {
            skip_next = true;
        } else {
            let cs = crate::strutil::str_to_chars(a.as_str());
            let dashdash = cs.len() >= 2 && cs[0] == '-' && cs[1] == '-';
            proof {
                assert(dashdash == spec_dashdash(a@));
            }
            if !dashdash && !crate::strutil::tok_is(a, "-f") {
                result.push(a.clone());
                proof {
                    assert(result.deep_view() =~= result.deep_view().drop_last().push(a@));
                    assert(result.deep_view().drop_last() + (seq![dv[i as int]] + spec_clean(
                        dv,
                        i + 1 as int,
                        false,
                    )) =~= result.deep_view() + spec_clean(dv, i + 1 as int, false));
                }
            }
        }
        i = i + 1;
    }
    proof {
        assert(spec_clean(dv, 0, false) =~= result.deep_view());
    }
    result
}

} // verus!
