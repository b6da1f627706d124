use vstd::prelude::*;
use vstd::string::{StrSliceExecFns, StringExecFns};

use crate::expr::{
    clone_range, match_error_view, var_match, var_match_spec, MatchError, MatchPlan, SpecMatchError,
};
use crate::numbers::{parse_i32, parse_i32_spec};
use crate::resolver::{join_spaces, join_tokens};
use crate::table::{map_of, unique_keys};
use crate::text::{char_index_from, find_char, str_eq};
use crate::vars::VarStore;

verus! {

/// One outward action that a handled line asks the embedding program to
/// perform.
pub enum Effect {
    /// Print this line on standard output.
    Out(String),
    /// Report this line on standard error.
    Warn(String),
    /// Attempt to change the working directory, reporting failure.
    ChangeDir(String),
    /// Terminate the whole process with this code.
    Exit(i32),
    /// Emit the clear-screen control sequence.
    ClearScreen,
    /// Spawn this external command, wait for it and report its outcome.
    Run(Vec<String>),
    /// Evaluate `left op right` as floating point and store the textual
    /// result under `name`.
    Eval(MatchPlan),
}

/// The mathematical counterpart of `Effect`.
pub enum SpecEffect {
    Out(Seq<char>),
    Warn(Seq<char>),
    ChangeDir(Seq<char>),
    Exit(int),
    ClearScreen,
    Run(Seq<Seq<char>>),
    Eval((Seq<char>, Seq<char>, char, Seq<char>)),
}

pub open spec fn effect_view(e: Effect) -> SpecEffect {
    match e {
        Effect::Out(s) => SpecEffect::Out(s@),
        Effect::Warn(s) => SpecEffect::Warn(s@),
        Effect::ChangeDir(s) => SpecEffect::ChangeDir(s@),
        Effect::Exit(c) => SpecEffect::Exit(c as int),
        Effect::ClearScreen => SpecEffect::ClearScreen,
        Effect::Run(v) => SpecEffect::Run(v.deep_view()),
        Effect::Eval(p) => SpecEffect::Eval((p.name@, p.left@, p.op, p.right@)),
    }
}

pub open spec fn effects_view(es: Seq<Effect>) -> Seq<SpecEffect> {
    Seq::new(es.len(), |i: int| effect_view(es[i]))
}

/// The report each `var match` error deserves.
pub open spec fn match_error_message(e: SpecMatchError) -> Seq<char> {
    match e {
        SpecMatchError::ExpectedAssignment => "var match: expected 'variable = expression'"@,
        SpecMatchError::InvalidExpression(s) => "var match: invalid expression: '"@ + s + "'"@,
        SpecMatchError::UnknownVariable(s) => "Number Invalid: unknown variable '"@ + s + "'"@,
        SpecMatchError::NonNumeric(s) => "Number Invalid: variable '"@ + s
            + "' contains non-numeric value"@,
    }
}

/// Render a `var match` error as its report line.
pub fn match_error_text(e: &MatchError) -> (r: String)
    ensures
        r@ == match_error_message(match_error_view(e)),
{
    match e {
        MatchError::ExpectedAssignment => "var match: expected 'variable = expression'".to_owned(),
        MatchError::InvalidExpression(s) => {
            let mut msg = "var match: invalid expression: '".to_owned();
            msg.append(s.as_str());
            msg.append("'");
            msg
        },
        MatchError::UnknownVariable(s) => {
            let mut msg = "Number Invalid: unknown variable '".to_owned();
            msg.append(s.as_str());
            msg.append("'");
            msg
        },
        MatchError::NonNumeric(s) => {
            let mut msg = "Number Invalid: variable '".to_owned();
            msg.append(s.as_str());
            msg.append("' contains non-numeric value");
            msg
        },
    }
}

/// The pieces that `print` joins: the tokens before any `;`, where a token
/// beginning with `$` stands for the named variable's value and an unset
/// variable contributes nothing.
pub open spec fn print_pieces(toks: Seq<Seq<char>>, m: Map<Seq<char>, Seq<char>>) -> Seq<Seq<char>>
    decreases toks.len(),
{
    if toks.len() == 0 {
        Seq::empty()
    } else if toks[0] == seq![';'] {
        Seq::empty()
    } else if toks[0].len() > 0 && toks[0][0] == '$' {
        if m.contains_key(toks[0].drop_first()) {
            seq![m[toks[0].drop_first()]] + print_pieces(toks.drop_first(), m)
        } else {
            print_pieces(toks.drop_first(), m)
        }
    } else {
        seq![toks[0]] + print_pieces(toks.drop_first(), m)
    }
}

/// The warnings that `print` reports: one for each `$` token before any
/// `;` whose variable is unset.
pub open spec fn print_warnings(toks: Seq<Seq<char>>, m: Map<Seq<char>, Seq<char>>) -> Seq<
    Seq<char>,
>
    decreases toks.len(),
{
    if toks.len() == 0 {
        Seq::empty()
    } else if toks[0] == seq![';'] {
        Seq::empty()
    } else if toks[0].len() > 0 && toks[0][0] == '$' && !m.contains_key(toks[0].drop_first()) {
        seq!["Varriable not searched!"@] + print_warnings(toks.drop_first(), m)
    } else {
        print_warnings(toks.drop_first(), m)
    }
}

/// Work out what `print` emits: the joined output line and the warnings
/// for unset variables, in the order they arose.
pub fn print(args: &Vec<String>, vars: &VarStore) -> (r: (String, Vec<String>))
    requires
        args.len() >= 1,
    ensures
        r.0@ == join_spaces(print_pieces(args.deep_view().skip(1), vars@)),
        r.1.deep_view() == print_warnings(args.deep_view().skip(1), vars@),
{
    let ghost dv = args.deep_view();
    let ghost m = vars@;
    let n = args.len();
    let mut pieces: Vec<String> = Vec::new();
    let mut warnings: Vec<String> = Vec::new();
    proof {
        reveal_strlit(";");
        assert(";"@ =~= seq![';']);
        assert(pieces.deep_view() =~= Seq::<Seq<char>>::empty());
        assert(warnings.deep_view() =~= Seq::<Seq<char>>::empty());
        assert(Seq::<Seq<char>>::empty() + print_pieces(dv.skip(1), m) =~= print_pieces(
            dv.skip(1),
            m,
        ));
        assert(Seq::<Seq<char>>::empty() + print_warnings(dv.skip(1), m) =~= print_warnings(
            dv.skip(1),
            m,
        ));
    }
    let mut i: usize = 1;
    while i < n && !str_eq(args[i].as_str(), ";")
        invariant
            1 <= i <= n == args.len(),
            dv == args.deep_view(),
            m == vars@,
            ";"@ =~= seq![';'],
            print_pieces(dv.skip(1), m) == pieces.deep_view() + print_pieces(dv.skip(i as int), m),
            print_warnings(dv.skip(1), m) == warnings.deep_view() + print_warnings(
                dv.skip(i as int),
                m,
            ),
        decreases n - i,
    {
        let ghost cur = dv.skip(i as int);
        let ghost opieces = pieces.deep_view();
        let ghost owarnings = warnings.deep_view();
        proof {
            assert(dv[i as int] == args@[i as int]@);
            assert(cur[0] == dv[i as int]);
            assert(cur.drop_first() =~= dv.skip(i + 1 as int));
        }
        let tok = &args[i];
        let tok_len = tok.as_str().unicode_len();
        if tok_len > 0 && tok.as_str().get_char(0) == '$' {
            let name = tok.as_str().substring_char(1, tok_len);
            proof {
                assert(name@ =~= dv[i as int].drop_first());
            }
            match vars.get(name) {
                Some(v) => {
                    pieces.push(v);
                    proof {
                        assert(pieces.deep_view() =~= opieces.push(m[dv[i as int].drop_first()]));
                        assert(opieces + (seq![m[dv[i as int].drop_first()]] + print_pieces(
                            cur.drop_first(),
                            m,
                        )) =~= pieces.deep_view() + print_pieces(cur.drop_first(), m));
                    }
                },
                None => {
                    warnings.push("Varriable not searched!".to_owned());
                    proof {
                        assert(warnings.deep_view() =~= owarnings.push(
                            "Varriable not searched!"@,
                        ));
                        assert(owarnings + (seq!["Varriable not searched!"@] + print_warnings(
                            cur.drop_first(),
                            m,
                        )) =~= warnings.deep_view() + print_warnings(cur.drop_first(), m));
                    }
                },
            }
        } else {
            pieces.push(tok.clone());
            proof {
                assert(pieces.deep_view() =~= opieces.push(dv[i as int]));
                assert(opieces + (seq![dv[i as int]] + print_pieces(cur.drop_first(), m))
                    =~= pieces.deep_view() + print_pieces(cur.drop_first(), m));
            }
        }
        i += 1;
    }
    proof {
        if i < n {
            assert(dv[i as int] == args@[i as int]@);
            assert(dv.skip(i as int)[0] == dv[i as int]);
        }
        assert(print_pieces(dv.skip(i as int), m) =~= Seq::<Seq<char>>::empty());
        assert(print_warnings(dv.skip(i as int), m) =~= Seq::<Seq<char>>::empty());
        assert(pieces.deep_view() + Seq::<Seq<char>>::empty() =~= pieces.deep_view());
        assert(warnings.deep_view() + Seq::<Seq<char>>::empty() =~= warnings.deep_view());
        assert(pieces.deep_view().skip(0) =~= pieces.deep_view());
    }
    let out = join_tokens(&pieces, 0);
    (out, warnings)
}

/// The directory that `cd` aims for: the argument when one is given, else
/// the value of `HOME`, else the root directory.
pub open spec fn cd_target(args: Seq<Seq<char>>, m: Map<Seq<char>, Seq<char>>) -> Seq<char> {
    if args.len() >= 2 {
        args[1]
    } else if m.contains_key("HOME"@) {
        m["HOME"@]
    } else {
        "/"@
    }
}

/// Work out the directory that `cd` aims for.
pub fn cd(args: &Vec<String>, vars: &VarStore) -> (target: String)
    ensures
        target@ == cd_target(args.deep_view(), vars@),
{
    if args.len() >= 2 {
        proof {
            assert(args.deep_view()[1] == args@[1]@);
        }
        args[1].clone()
    } else {
        match vars.get("HOME") {
            Some(home) => home,
            None => "/".to_owned(),
        }
    }
}

/// The code that `exit` terminates with: its argument when one is given
/// and parses, zero otherwise.
pub open spec fn exit_code_spec(args: Seq<Seq<char>>) -> int {
    if args.len() >= 2 && parse_i32_spec(args[1]) is Some {
        parse_i32_spec(args[1]).unwrap()
    } else {
        0
    }
}

/// Work out the code that `exit` terminates with.
pub fn exit(args: &Vec<String>) -> (code: i32)
    ensures
        code as int == exit_code_spec(args.deep_view()),
{
    if args.len() >= 2 {
        proof {
            assert(args.deep_view()[1] == args@[1]@);
        }
        match parse_i32(args[1].as_str()) {
            Some(c) => c,
            None => 0,
        }
    } else {
        0
    }
}

/// The control sequence that clears the screen and homes the cursor.
pub open spec fn clear_sequence() -> Seq<char> {
    "\x1B[2J\x1B[H"@
}

/// The text that `clr` emits.
pub fn clr() -> (r: String)
    ensures
        r@ == clear_sequence(),
{
    "\x1B[2J\x1B[H".to_owned()
}

/// The listing lines for a set of entries, one `key=value` line each.
pub open spec fn listing_effects(entries: Seq<(Seq<char>, Seq<char>)>) -> Seq<SpecEffect> {
    Seq::new(entries.len(), |i: int| SpecEffect::Out(entries[i].0 + seq!['='] + entries[i].1))
}

/// The effects list the store exactly: they are `key=value` lines for some
/// enumeration of the store's entries, each key once.
pub open spec fn lists_store(effs: Seq<SpecEffect>, m: Map<Seq<char>, Seq<char>>) -> bool {
    exists|entries: Seq<(Seq<char>, Seq<char>)>|
        unique_keys(entries) && #[trigger] map_of(entries) == m && effs == listing_effects(entries)
}

/// What handling a `var` builtin with these arguments (the tokens after
/// the word `var`) does to the store, and which effects it asks for.
pub open spec fn var_post(
    args: Seq<Seq<char>>,
    m0: Map<Seq<char>, Seq<char>>,
    m1: Map<Seq<char>, Seq<char>>,
    effs: Seq<SpecEffect>,
) -> bool {
    if args.len() == 0 {
        m1 == m0 && lists_store(effs, m0)
    } else if args[0] == "match"@ {
        if args.len() < 2 {
            m1 == m0 && effs == seq![SpecEffect::Warn("var match: too few arguments"@)]
        } else {
            match var_match_spec(args.skip(1), m0) {
                Ok(plan) => m1 == m0 && effs == seq![SpecEffect::Eval(plan)],
                Err(e) => m1 == m0 && effs == seq![SpecEffect::Warn(match_error_message(e))],
            }
        }
    } else if args[0] == "del"@ {
        if args.len() < 2 {
            m1 == m0 && effs == seq![SpecEffect::Warn("var del: missing variable name"@)]
        } else {
            m1 == m0.remove(args[1]) && effs == Seq::<SpecEffect>::empty()
        }
    } else if args.len() >= 3 && args[1] == "="@ {
        m1 == m0.insert(args[0], join_spaces(args.skip(2))) && effs == Seq::<SpecEffect>::empty()
    } else if char_index_from(args[0], '=', 0) < args[0].len() {
        m1 == m0.insert(
            args[0].take(char_index_from(args[0], '=', 0)),
            args[0].skip(char_index_from(args[0], '=', 0) + 1),
        ) && effs == Seq::<SpecEffect>::empty()
    } else {
        m1 == m0 && effs == seq![
            SpecEffect::Warn(
                "var: unknown subcommand or invalid format. Use: var key=value, var del NAME, or var match ..."@,
            ),
        ]
    }
}

/// Handle the `var` builtin over the tokens after the word `var`: list,
/// delete, evaluate a `var match`, or assign.
pub fn handle_var(args: &Vec<String>, vars: &mut VarStore) -> (effects: Vec<Effect>)
    ensures
        var_post(args.deep_view(), old(vars)@, final(vars)@, effects_view(effects@)),
{
    let ghost dv = args.deep_view();
    let ghost m0 = vars@;
    let n = args.len();
    let mut effects: Vec<Effect> = Vec::new();
    proof {
        assert(effects_view(effects@) =~= Seq::<SpecEffect>::empty());
    }
    if n == 0 {
        let entries = vars.list();
        let ghost edv = entries.deep_view();
        proof {
            reveal_strlit("=");
            assert("="@ =~= seq!['=']);
        }
        let mut i: usize = 0;
        while i < entries.len()
            invariant
                i <= entries.len(),
                edv == entries.deep_view(),
                "="@ =~= seq!['='],
                effects_view(effects@) =~= listing_effects(edv.take(i as int)),
            decreases entries.len() - i,
        {
            let mut line = entries[i].0.clone();
            line.append("=");
            line.append(entries[i].1.as_str());
            proof {
                assert(edv[i as int] == (entries@[i as int].0@, entries@[i as int].1@));
                assert(line@ == edv[i as int].0 + seq!['='] + edv[i as int].1);
            }
            let ghost lview = line@;
            let ghost oeff = effects@;
            effects.push(Effect::Out(line));
            proof {
                assert(effects_view(oeff).len() == oeff.len());
                assert(edv.len() == entries@.len());
                assert(listing_effects(edv.take(i as int)).len() == i);
                assert(effects_view(oeff) == listing_effects(edv.take(i as int)));
                assert(oeff.len() == i);
                assert forall|x: int| 0 <= x < i + 1 implies effects_view(effects@)[x]
                    == listing_effects(edv.take(i + 1 as int))[x] by {
                    if x < i {
                        assert(effects_view(oeff)[x] == listing_effects(edv.take(i as int))[x]);
                        assert(effects@[x] == oeff[x]);
                        assert(edv.take(i + 1 as int)[x] == edv.take(i as int)[x]);
                    } else {
                        assert(effect_view(effects@[x]) == SpecEffect::Out(lview));
                        assert(edv.take(i + 1 as int)[x] == edv[i as int]);
                    }
                }
                assert(effects_view(effects@) =~= listing_effects(edv.take(i + 1 as int)));
            }
            i += 1;
        }
        proof {
            assert(edv.take(entries.len() as int) =~= edv);
            assert(effects_view(effects@) == listing_effects(edv));
            assert(lists_store(effects_view(effects@), m0));
        }
        return effects;
    }
    proof {
        assert(dv[0] == args@[0]@);
    }
    if str_eq(args[0].as_str(), "match") {
        if n < 2 {
            effects.push(Effect::Warn("var match: too few arguments".to_owned()));
            proof {
                assert(effects_view(effects@) =~= seq![
                    SpecEffect::Warn("var match: too few arguments"@),
                ]);
            }
            return effects;
        }
        let tail = clone_range(args, 1, n);
        proof {
            assert(tail.deep_view() =~= dv.skip(1));
        }
        match var_match(&tail, vars) {
            Ok(plan) => {
                effects.push(Effect::Eval(plan));
            },
            Err(e) => {
                let msg = match_error_text(&e);
                effects.push(Effect::Warn(msg));
            },
        }
        proof {
            assert(effects_view(effects@) =~= seq![effect_view(effects@[0])]);
        }
        return effects;
    }
    if str_eq(args[0].as_str(), "del") {
        if n < 2 {
            effects.push(Effect::Warn("var del: missing variable name".to_owned()));
            proof {
                assert(effects_view(effects@) =~= seq![
                    SpecEffect::Warn("var del: missing variable name"@),
                ]);
            }
            return effects;
        }
        proof {
            assert(dv[1] == args@[1]@);
        }
        vars.delete(args[1].as_str());
        return effects;
    }
    if n >= 3 && str_eq(args[1].as_str(), "=") {
        proof {
            assert(dv[1] == args@[1]@);
            reveal_strlit("=");
            assert("="@ =~= seq!['=']);
        }
        let value = join_tokens(args, 2);
        vars.set(args[0].as_str(), value.as_str());
        return effects;
    }
    proof {
        if n >= 3 {
            assert(dv[1] == args@[1]@);
            reveal_strlit("=");
            assert("="@ =~= seq!['=']);
        }
    }
    match find_char(args[0].as_str(), '=') {
        Some(p) => {
            let a0 = args[0].as_str();
            let a0_len = a0.unicode_len();
            let key = a0.substring_char(0, p);
            let value = a0.substring_char(p + 1, a0_len);
            proof {
                assert(key@ =~= dv[0].take(char_index_from(dv[0], '=', 0)));
                assert(value@ =~= dv[0].skip(char_index_from(dv[0], '=', 0) + 1));
            }
            vars.set(key, value);
            effects
        },
        None => {
            effects.push(
                Effect::Warn(
                    "var: unknown subcommand or invalid format. Use: var key=value, var del NAME, or var match ...".to_owned(),
                ),
            );
            proof {
                assert(effects_view(effects@) =~= seq![
                    SpecEffect::Warn(
                        "var: unknown subcommand or invalid format. Use: var key=value, var del NAME, or var match ..."@,
                    ),
                ]);
            }
            effects
        },
    }
}

} // verus!
