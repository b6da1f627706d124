use vstd::prelude::*;
use vstd::string::{StrSliceExecFns, StringExecFns};

use crate::aliases::AliasTable;
use crate::dispatch::{
    cd, cd_target, effect_view, effects_view, exit, exit_code_spec, handle_var, print,
    print_pieces, print_warnings, var_post, Effect, SpecEffect,
};
use crate::expr::clone_range;
use crate::numbers::dec_str;
use crate::process::{wait_message, wexitstatus, wifexited};
use crate::resolver::{
    join_spaces, resolve, resolve_from, Resolution, SpecResolution,
    EXPANSION_CEILING,
};
use crate::text::str_eq;
use crate::vars::VarStore;

verus! {

/// The command names the dispatcher recognizes as builtins.
pub open spec fn is_builtin_name(t: Seq<char>) -> bool {
    t == "print"@ || t == "cd"@ || t == "var"@ || t == "exit"@ || t == "clr"@
}

pub open spec fn warn_effects(ws: Seq<Seq<char>>) -> Seq<SpecEffect> {
    Seq::new(ws.len(), |i: int| SpecEffect::Warn(ws[i]))
}

/// What dispatching a resolved, non-empty command line does to the
/// variable store and which effects it asks for.
pub open spec fn command_post(
    toks: Seq<Seq<char>>,
    m0: Map<Seq<char>, Seq<char>>,
    m1: Map<Seq<char>, Seq<char>>,
    effs: Seq<SpecEffect>,
) -> bool {
    if toks[0] == "print"@ {
        m1 == m0 && effs == warn_effects(print_warnings(toks.skip(1), m0)).push(
            SpecEffect::Out(join_spaces(print_pieces(toks.skip(1), m0))),
        )
    } else if toks[0] == "cd"@ {
        m1 == m0 && effs == seq![SpecEffect::ChangeDir(cd_target(toks, m0))]
    } else if toks[0] == "var"@ {
        var_post(toks.skip(1), m0, m1, effs)
    } else if toks[0] == "exit"@ {
        m1 == m0 && effs == seq![SpecEffect::Exit(exit_code_spec(toks))]
    } else if toks[0] == "clr"@ {
        m1 == m0 && effs == seq![SpecEffect::ClearScreen]
    } else {
        m1 == m0 && effs == seq![SpecEffect::Run(toks)]
    }
}

/// A resolution that yields a command line yields a non-empty one.
pub proof fn lemma_resolved_command_nonempty(
    aliases: Map<Seq<char>, Seq<char>>,
    line: Seq<char>,
    fuel: nat,
)
    ensures
        resolve_from(aliases, line, fuel) matches SpecResolution::Command(ts) ==> ts.len() > 0,
    decreases fuel,
{
    match crate::resolver::shlex_tokens(line) {
        Option::None => {},
        Option::Some(toks) => {
            if toks.len() > 0 && aliases.contains_key(toks[0]) && fuel > 0 {
                lemma_resolved_command_nonempty(
                    aliases,
                    crate::resolver::subst_line(aliases[toks[0]], toks),
                    (fuel - 1) as nat,
                );
            }
        },
    }
}

/// Handle one raw input line: resolve it through the alias table, then
/// dispatch the builtin or hand the line to process execution. The returned
/// effects are the outward actions the embedding program performs, in
/// order.
pub fn handle_builtin(line: &str, aliases: &AliasTable, vars: &mut VarStore) -> (effects: Vec<
    Effect,
>)
    ensures
        ({
            let res = resolve_from(aliases@, line@, EXPANSION_CEILING as nat);
            match res {
                SpecResolution::ParseError => final(vars)@ == old(vars)@ && effects_view(effects@)
                    == seq![SpecEffect::Warn("Command parsing error"@)],
                SpecResolution::NoOp => final(vars)@ == old(vars)@ && effects_view(effects@)
                    == Seq::<SpecEffect>::empty(),
                SpecResolution::TooDeep => final(vars)@ == old(vars)@ && effects_view(effects@)
                    == seq![SpecEffect::Warn("alias expansion too deep"@)],
                SpecResolution::Command(toks) => command_post(
                    toks,
                    old(vars)@,
                    final(vars)@,
                    effects_view(effects@),
                ),
            }
        }),
{
    let ghost res = resolve_from(aliases@, line@, EXPANSION_CEILING as nat);
    let mut effects: Vec<Effect> = Vec::new();
    proof {
        assert(effects_view(effects@) =~= Seq::<SpecEffect>::empty());
    }
    match resolve(aliases, line) {
        Resolution::ParseError => {
            effects.push(Effect::Warn("Command parsing error".to_owned()));
            proof {
                assert(effects_view(effects@) =~= seq![
                    SpecEffect::Warn("Command parsing error"@),
                ]);
            }
            effects
        },
        Resolution::NoOp => effects,
        Resolution::TooDeep => {
            effects.push(Effect::Warn("alias expansion too deep".to_owned()));
            proof {
                assert(effects_view(effects@) =~= seq![
                    SpecEffect::Warn("alias expansion too deep"@),
                ]);
            }
            effects
        },
        Resolution::Command(toks) => {
            let ghost dv = toks.deep_view();
            proof {
                lemma_resolved_command_nonempty(aliases@, line@, EXPANSION_CEILING as nat);
                assert(res matches SpecResolution::Command(ts) && ts == dv && ts.len() > 0);
                assert(dv[0] == toks@[0]@);
            }
            let first = toks[0].as_str();
            if str_eq(first, "print") {
                let (out, warns) = print(&toks, vars);
                let ghost wv = warns.deep_view();
                let mut w: usize = 0;
                while w < warns.len()
                    invariant
                        w <= warns.len(),
                        wv == warns.deep_view(),
                        effects_view(effects@) =~= warn_effects(wv.take(w as int)),
                    decreases warns.len() - w,
                {
                    let ghost oeff = effects@;
                    effects.push(Effect::Warn(warns[w].clone()));
                    proof {
                        assert(effects_view(oeff).len() == oeff.len());
                        assert(warn_effects(wv.take(w as int)).len() == w);
                        assert(effects_view(oeff) == warn_effects(wv.take(w as int)));
                        assert(oeff.len() == w);
                        assert(warns@[w as int]@ == wv[w as int]);
                        assert forall|x: int| 0 <= x < w + 1 implies effects_view(effects@)[x]
                            == warn_effects(wv.take(w + 1 as int))[x] by {
                            if x < w {
                                assert(effects_view(oeff)[x] == warn_effects(wv.take(w as int))[x]);
                                assert(effects@[x] == oeff[x]);
                                assert(wv.take(w + 1 as int)[x] == wv.take(w as int)[x]);
                            } else {
                                assert(effect_view(effects@[x]) == SpecEffect::Warn(wv[w as int]));
                                assert(wv.take(w + 1 as int)[x] == wv[w as int]);
                            }
                        }
                        assert(effects_view(effects@) =~= warn_effects(wv.take(w + 1 as int)));
                    }
                    w += 1;
                }
                let ghost oeff = effects@;
                let ghost oview = out@;
                effects.push(Effect::Out(out));
                proof {
                    assert(wv.take(wv.len() as int) =~= wv);
                    assert(effects_view(oeff).len() == oeff.len());
                    assert(effects_view(oeff) == warn_effects(wv));
                    assert(oeff.len() == wv.len());
                    assert forall|x: int| 0 <= x < oeff.len() + 1 implies effects_view(effects@)[x]
                        == warn_effects(wv).push(SpecEffect::Out(oview))[x] by {
                        if x < oeff.len() {
                            assert(effects_view(oeff)[x] == warn_effects(wv)[x]);
                            assert(effects@[x] == oeff[x]);
                        } else {
                            assert(effect_view(effects@[x]) == SpecEffect::Out(oview));
                        }
                    }
                    assert(effects_view(effects@) =~= warn_effects(wv).push(
                        SpecEffect::Out(oview),
                    ));
                }
                effects
            } else if str_eq(first, "cd") {
                let target = cd(&toks, vars);
                effects.push(Effect::ChangeDir(target));
                proof {
                    assert(effects_view(effects@) =~= seq![
                        SpecEffect::ChangeDir(cd_target(dv, vars@)),
                    ]);
                }
                effects
            } else if str_eq(first, "var") {
                let tail = clone_range(&toks, 1, toks.len());
                proof {
                    assert(tail.deep_view() =~= dv.skip(1));
                }
                handle_var(&tail, vars)
            } else if str_eq(first, "exit") {
                let code = exit(&toks);
                effects.push(Effect::Exit(code));
                proof {
                    assert(effects_view(effects@) =~= seq![
                        SpecEffect::Exit(exit_code_spec(dv)),
                    ]);
                }
                effects
            } else if str_eq(first, "clr") {
                effects.push(Effect::ClearScreen);
                proof {
                    assert(effects_view(effects@) =~= seq![SpecEffect::ClearScreen]);
                }
                effects
            } else {
                effects.push(Effect::Run(toks));
                proof {
                    assert(effects_view(effects@) =~= seq![SpecEffect::Run(dv)]);
                }
                effects
            }
        },
    }
}

/// A resolved line whose first token names no builtin is forwarded
/// verbatim — the whole token sequence, untouched — to process execution,
/// and the variable store is left as it was.
pub proof fn lemma_unknown_command_forwarded(
    toks: Seq<Seq<char>>,
    m0: Map<Seq<char>, Seq<char>>,
    m1: Map<Seq<char>, Seq<char>>,
    effs: Seq<SpecEffect>,
)
    requires
        toks.len() > 0,
        !is_builtin_name(toks[0]),
        command_post(toks, m0, m1, effs),
    ensures
        effs == seq![SpecEffect::Run(toks)],
        m1 == m0,
{
}

/// A child that exits normally with a non-zero code earns exactly one
/// diagnostic line, and that line names the code in decimal.
pub proof fn lemma_nonzero_exit_diagnosed(ret: i32, status: i32)
    requires
        ret != -1,
        wifexited(status),
        wexitstatus(status) != 0,
    ensures
        wait_message(ret, status) == Some(
            "the program terminated with code "@ + dec_str(wexitstatus(status) as int),
        ),
{
}

} // verus!
