use vstd::prelude::*;
use vstd::string::{StrSliceExecFns, StringExecFns};

use crate::aliases::AliasTable;

verus! {

/// How many alias substitutions may be applied to one line before the
/// resolver reports a cycle.
pub const EXPANSION_CEILING: u32 = 10;

/// The token sequence that `shlex::split` produces for a line, or `None`
/// where the line cannot be lexed (for example, unbalanced quoting).
pub uninterp spec fn shlex_tokens(line: Seq<char>) -> Option<Seq<Seq<char>>>;

/// Relies on shlex::split: the word split of a line depends on the line's
/// characters alone, and `None` reports a line that cannot be lexed.
#[verifier::external_body]
fn tokenize(line: &str) -> (r: Option<Vec<String>>)
    ensures
        r.deep_view() == shlex_tokens(line@),
{
    shlex::split(line)
}

/// The tokens joined with a single space between each adjacent pair.
pub open spec fn join_spaces(toks: Seq<Seq<char>>) -> Seq<char>
    decreases toks.len(),
{
    if toks.len() == 0 {
        Seq::empty()
    } else if toks.len() == 1 {
        toks[0]
    } else {
        toks[0] + seq![' '] + join_spaces(toks.drop_first())
    }
}

pub proof fn lemma_join_snoc(toks: Seq<Seq<char>>, last: Seq<char>)
    ensures
        join_spaces(toks.push(last)) == if toks.len() == 0 {
            last
        } else {
            join_spaces(toks) + seq![' '] + last
        },
    decreases toks.len(),
{
    if toks.len() == 0 {
        assert(toks.push(last).len() == 1);
        assert(toks.push(last)[0] == last);
    } else {
        lemma_join_snoc(toks.drop_first(), last);
        assert(toks.push(last).drop_first() =~= toks.drop_first().push(last));
        if toks.len() == 1 {
            assert(join_spaces(toks.push(last)) == toks[0] + seq![' '] + last);
        } else {
            assert(join_spaces(toks.push(last)) == toks[0] + seq![' '] + (join_spaces(
                toks.drop_first(),
            ) + seq![' '] + last));
            assert(toks[0] + seq![' '] + (join_spaces(toks.drop_first()) + seq![' '] + last) =~= (
            toks[0] + seq![' '] + join_spaces(toks.drop_first())) + seq![' '] + last);
        }
    }
}

/// Join the tokens at positions `from..` with single spaces.
pub fn join_tokens(tokens: &Vec<String>, from: usize) -> (r: String)
    requires
        from <= tokens.len(),
    ensures
        r@ == join_spaces(tokens.deep_view().skip(from as int)),
{
    let mut out = String::new();
    let mut i: usize = from;
    while i < tokens.len()
        invariant
            from <= i <= tokens.len(),
            out@ == join_spaces(tokens.deep_view().subrange(from as int, i as int)),
        decreases tokens.len() - i,
    {
        let ghost prefix = tokens.deep_view().subrange(from as int, i as int);
        if i > from {
            out.append(" ");
            proof {
                reveal_strlit(" ");
                assert(" "@ =~= seq![' ']);
            }
        }
        out.append(tokens[i].as_str());
        proof {
            lemma_join_snoc(prefix, tokens.deep_view()[i as int]);
            assert(tokens.deep_view().subrange(from as int, i + 1 as int) =~= prefix.push(
                tokens.deep_view()[i as int],
            ));
        }
        i += 1;
    }
    proof {
        assert(tokens.deep_view().subrange(from as int, tokens.deep_view().len() as int)
            =~= tokens.deep_view().skip(from as int));
    }
    out
}

/// What resolving one raw line produces.
pub enum Resolution {
    /// The line could not be lexed.
    ParseError,
    /// The line held no tokens; processing stops.
    NoOp,
    /// The expansion ceiling was reached before an alias miss.
    TooDeep,
    /// The resolved command line, whose first token is not an alias.
    Command(Vec<String>),
}

/// The mathematical counterpart of `Resolution`.
pub enum SpecResolution {
    ParseError,
    NoOp,
    TooDeep,
    Command(Seq<Seq<char>>),
}

pub open spec fn resolution_view(r: &Resolution) -> SpecResolution {
    match r {
        Resolution::ParseError => SpecResolution::ParseError,
        Resolution::NoOp => SpecResolution::NoOp,
        Resolution::TooDeep => SpecResolution::TooDeep,
        Resolution::Command(toks) => SpecResolution::Command(toks.deep_view()),
    }
}

/// The line that one alias substitution produces: the expansion, one space,
/// then the remaining original tokens joined by spaces.
pub open spec fn subst_line(expansion: Seq<char>, toks: Seq<Seq<char>>) -> Seq<char> {
    expansion + seq![' '] + join_spaces(toks.drop_first())
}

/// Resolution of a line with `fuel` substitutions still allowed: tokenize,
/// and while the first token names an alias, substitute and start over.
pub open spec fn resolve_from(
    aliases: Map<Seq<char>, Seq<char>>,
    line: Seq<char>,
    fuel: nat,
) -> SpecResolution
    decreases fuel,
{
    match shlex_tokens(line) {
        Option::None => SpecResolution::ParseError,
        Option::Some(toks) => if toks.len() == 0 {
            SpecResolution::NoOp
        } else if !aliases.contains_key(toks[0]) {
            SpecResolution::Command(toks)
        } else if fuel == 0 {
            SpecResolution::TooDeep
        } else {
            resolve_from(aliases, subst_line(aliases[toks[0]], toks), (fuel - 1) as nat)
        },
    }
}

/// One alias substitution preserves the trailing arguments: when the first
/// token of a line names an alias, resolving the line is resolving the
/// expansion followed by the remaining tokens, with one substitution spent.
pub proof fn lemma_substitution_preserves_tail(
    aliases: Map<Seq<char>, Seq<char>>,
    line: Seq<char>,
    fuel: nat,
)
    requires
        fuel > 0,
        shlex_tokens(line) matches Some(toks) && toks.len() > 0 && aliases.contains_key(toks[0]),
    ensures
        resolve_from(aliases, line, fuel) == resolve_from(
            aliases,
            subst_line(aliases[shlex_tokens(line).unwrap()[0]], shlex_tokens(line).unwrap()),
            (fuel - 1) as nat,
        ),
{
}

/// Spare substitutions do not change a resolution that did not hit the
/// ceiling.
pub proof fn lemma_resolve_fuel_monotone(
    aliases: Map<Seq<char>, Seq<char>>,
    line: Seq<char>,
    fuel: nat,
    more: nat,
)
    requires
        fuel <= more,
        resolve_from(aliases, line, fuel) != SpecResolution::TooDeep,
    ensures
        resolve_from(aliases, line, more) == resolve_from(aliases, line, fuel),
    decreases fuel,
{
    match shlex_tokens(line) {
        Option::None => {},
        Option::Some(toks) => {
            if toks.len() > 0 && aliases.contains_key(toks[0]) {
                lemma_resolve_fuel_monotone(
                    aliases,
                    subst_line(aliases[toks[0]], toks),
                    (fuel - 1) as nat,
                    (more - 1) as nat,
                );
            }
        },
    }
}

/// Substituting an alias yields the same dispatch as resolving the
/// substituted line directly, as long as the latter stays under the ceiling.
pub proof fn lemma_substitution_same_dispatch(
    aliases: Map<Seq<char>, Seq<char>>,
    line: Seq<char>,
    fuel: nat,
)
    requires
        fuel > 0,
        shlex_tokens(line) matches Some(toks) && toks.len() > 0 && aliases.contains_key(toks[0]),
        resolve_from(
            aliases,
            subst_line(aliases[shlex_tokens(line).unwrap()[0]], shlex_tokens(line).unwrap()),
            (fuel - 1) as nat,
        ) != SpecResolution::TooDeep,
    ensures
        resolve_from(aliases, line, fuel) == resolve_from(
            aliases,
            subst_line(aliases[shlex_tokens(line).unwrap()[0]], shlex_tokens(line).unwrap()),
            fuel,
        ),
{
    lemma_substitution_preserves_tail(aliases, line, fuel);
    lemma_resolve_fuel_monotone(
        aliases,
        subst_line(aliases[shlex_tokens(line).unwrap()[0]], shlex_tokens(line).unwrap()),
        (fuel - 1) as nat,
        fuel,
    );
}

/// Alias expansion terminates even under cyclic definitions: while every
/// tokenization keeps yielding a line whose head is again an alias — as with
/// a pair of aliases that expand to each other — resolution reports the
/// expansion ceiling rather than running on.
pub proof fn lemma_alias_cycle_reports_too_deep(
    aliases: Map<Seq<char>, Seq<char>>,
    line: Seq<char>,
    fuel: nat,
)
    requires
        forall|l: Seq<char>|
            (#[trigger] shlex_tokens(l)) matches Some(toks) && toks.len() > 0
                && aliases.contains_key(toks[0]),
    ensures
        resolve_from(aliases, line, fuel) == SpecResolution::TooDeep,
    decreases fuel,
{
    assert(shlex_tokens(line) matches Some(toks) && toks.len() > 0 && aliases.contains_key(
        toks[0],
    ));
    if fuel > 0 {
        let toks = shlex_tokens(line).unwrap();
        lemma_alias_cycle_reports_too_deep(
            aliases,
            subst_line(aliases[toks[0]], toks),
            (fuel - 1) as nat,
        );
    }
}

/// Resolve a raw input line through alias substitution, re-tokenizing after
/// every substitution, with at most `EXPANSION_CEILING` substitutions.
pub fn resolve(aliases: &AliasTable, line: &str) -> (r: Resolution)
    ensures
        resolution_view(&r) == resolve_from(aliases@, line@, EXPANSION_CEILING as nat),
{
    let mut current: String = line.to_owned();
    let mut steps: u32 = 0;
    loop
        invariant
            steps <= EXPANSION_CEILING,
            resolve_from(aliases@, current@, (EXPANSION_CEILING - steps) as nat) == resolve_from(
                aliases@,
                line@,
                EXPANSION_CEILING as nat,
            ),
        decreases EXPANSION_CEILING - steps,
    {
        let ghost fuel = (EXPANSION_CEILING - steps) as nat;
        match tokenize(current.as_str()) {
            None => {
                return Resolution::ParseError;
            },
            Some(toks) => {
                if toks.len() == 0 {
                    return Resolution::NoOp;
                }
                match aliases.get(toks[0].as_str()) {
                    None => {
                        proof {
                            assert(toks.deep_view()[0] == toks@[0]@);
                        }
                        return Resolution::Command(toks);
                    },
                    Some(expansion) => {
                        proof {
                            assert(toks.deep_view()[0] == toks@[0]@);
                        }
                        if steps == EXPANSION_CEILING {
                            return Resolution::TooDeep;
                        }
                        let mut next: String = expansion;
                        next.append(" ");
                        let tail = join_tokens(&toks, 1);
                        next.append(tail.as_str());
                        proof {
                            reveal_strlit(" ");
                            assert(" "@ =~= seq![' ']);
                            assert(toks.deep_view().skip(1) =~= toks.deep_view().drop_first());
                            assert(next@ == subst_line(
                                aliases@[toks.deep_view()[0]],
                                toks.deep_view(),
                            ));
                        }
                        current = next;
                        steps += 1;
                    },
                }
            },
        }
    }
}

} // verus!
