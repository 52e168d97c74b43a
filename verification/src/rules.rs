//! Rule maps: ordered `(category, bump)` pairs with first-match lookup,
//! the built-in defaults, and the parser for user-supplied rule strings.

use vstd::prelude::*;

use crate::bump::bump_of_name;
use crate::bump::BumpRule;
use crate::bump::BumpRuleParse;
use crate::category::cat_of_token;
use crate::category::CommitType;
use crate::category::CommitTypeV;
use crate::text::chars_to_string;
use crate::text::split_char;
use crate::text::split_chars;
use crate::text::str_to_chars;
use crate::version::bump_fits;
use crate::version::bump_spec;
use crate::version::SimpleVersion;

verus! {

// ---------------------------------------------------------------------------
// Lookup
// ---------------------------------------------------------------------------

/// First-match lookup: the first pair naming the category decides; no
/// match means no opinion (`Notset`).
pub open spec fn lookup_rule(rules: Seq<(CommitType, BumpRule)>, c: CommitTypeV) -> BumpRule
    decreases rules.len(),
{
    if rules.len() == 0 {
        BumpRule::Notset
    } else if rules[0].0@ == c {
        rules[0].1
    } else {
        lookup_rule(rules.drop_first(), c)
    }
}

/// The bump kind that the rules assign to a category.
pub fn match_rule(rules: &Vec<(CommitType, BumpRule)>, commit_type: &CommitType) -> (r: BumpRule)
    ensures
        r == lookup_rule(rules@, commit_type@),
{
    let mut i: usize = 0;
    proof {
        assert(rules@.skip(0) =~= rules@);
    }
    while i < rules.len()
        invariant
            i <= rules@.len(),
            lookup_rule(rules@, commit_type@) == lookup_rule(
                rules@.skip(i as int),
                commit_type@,
            ),
        decreases rules@.len() - i,
    {
        let ghost rest = rules@.skip(i as int);
        proof {
            assert(rest[0] == rules@[i as int]);
            assert(rest.drop_first() =~= rules@.skip(i + 1 as int));
        }
        if rules[i].0.same(commit_type) {
            return rules[i].1;
        }
        i = i + 1;
    }
    proof {
        assert(rules@.skip(rules@.len() as int).len() == 0);
    }
    BumpRule::Notset
}

/// The built-in default rules, in their fixed order.
pub open spec fn default_rules() -> Seq<(CommitType, BumpRule)> {
    seq![
        (CommitType::Build, BumpRule::NoBump),
        (CommitType::Chore, BumpRule::Patch),
        (CommitType::Ci, BumpRule::NoBump),
        (CommitType::Cd, BumpRule::NoBump),
        (CommitType::Docs, BumpRule::NoBump),
        (CommitType::Feat, BumpRule::Minor),
        (CommitType::Fix, BumpRule::Patch),
        (CommitType::Perf, BumpRule::Patch),
        (CommitType::Refactor, BumpRule::Patch),
        (CommitType::Revert, BumpRule::Patch),
        (CommitType::Style, BumpRule::Patch),
        (CommitType::Test, BumpRule::NoBump),
    ]
}

pub fn build_default_rules() -> (r: Vec<(CommitType, BumpRule)>)
    ensures
        r@ == default_rules(),
{
    let mut v: Vec<(CommitType, BumpRule)> = Vec::new();
    v.push((CommitType::Build, BumpRule::NoBump));
    v.push((CommitType::Chore, BumpRule::Patch));
    v.push((CommitType::Ci, BumpRule::NoBump));
    v.push((CommitType::Cd, BumpRule::NoBump));
    v.push((CommitType::Docs, BumpRule::NoBump));
    v.push((CommitType::Feat, BumpRule::Minor));
    v.push((CommitType::Fix, BumpRule::Patch));
    v.push((CommitType::Perf, BumpRule::Patch));
    v.push((CommitType::Refactor, BumpRule::Patch));
    v.push((CommitType::Revert, BumpRule::Patch));
    v.push((CommitType::Style, BumpRule::Patch));
    v.push((CommitType::Test, BumpRule::NoBump));
    proof {
        assert(v@ =~= default_rules());
    }
    v
}

/// Looks up the category and applies the resulting bump to the version.
pub fn bump_version(
    rules: &Vec<(CommitType, BumpRule)>,
    commit_type: &CommitType,
    version: &SimpleVersion,
) -> (r: SimpleVersion)
    requires
        bump_fits(*version, lookup_rule(rules@, commit_type@)),
    ensures
        r == bump_spec(*version, lookup_rule(rules@, commit_type@)),
{
    let rule = match_rule(rules, commit_type);
    version.bump(rule)
}

// ---------------------------------------------------------------------------
// Parsing rule strings: `category=bump`, comma-separated, several arguments
// ---------------------------------------------------------------------------

/// One `category=bump` piece. Extra `=` parts are ignored; a missing bump
/// or an unknown bump name fails.
pub open spec fn parse_rule_piece_spec(piece: Seq<char>) -> Result<
    (CommitTypeV, BumpRule),
    (Seq<char>, Seq<char>),
> {
    let parts = split_char(piece, '=');
    if parts.len() < 2 {
        Err((piece, "missing bump kind"@))
    } else {
        match bump_of_name(parts[1]) {
            Some(b) => Ok((cat_of_token(parts[0]), b)),
            None => Err((parts[1], "Did not match"@)),
        }
    }
}

/// Parses pieces in order; the first malformed piece fails the whole parse.
pub open spec fn parse_pieces_spec(ps: Seq<Seq<char>>) -> Result<
    Seq<(CommitTypeV, BumpRule)>,
    (Seq<char>, Seq<char>),
>
    decreases ps.len(),
{
    if ps.len() == 0 {
        Ok(Seq::empty())
    } else {
        match parse_rule_piece_spec(ps[0]) {
            Err(e) => Err(e),
            Ok(p) => match parse_pieces_spec(ps.drop_first()) {
                Err(e) => Err(e),
                Ok(rest) => Ok(seq![p] + rest),
            },
        }
    }
}

/// Every comma-separated piece of every argument, in order.
pub open spec fn rule_pieces_of(args: Seq<Seq<char>>) -> Seq<Seq<char>>
    decreases args.len(),
{
    if args.len() == 0 {
        Seq::empty()
    } else {
        split_char(args[0], ',') + rule_pieces_of(args.drop_first())
    }
}

pub open spec fn parse_rules_spec(args: Seq<Seq<char>>) -> Result<
    Seq<(CommitTypeV, BumpRule)>,
    (Seq<char>, Seq<char>),
> {
    parse_pieces_spec(rule_pieces_of(args))
}

/// The ghost image of an executable rule list.
pub open spec fn rules_view(rs: Seq<(CommitType, BumpRule)>) -> Seq<(CommitTypeV, BumpRule)> {
    rs.map_values(|p: (CommitType, BumpRule)| (p.0@, p.1))
}

fn parse_rule_piece(piece: &Vec<char>) -> (r: Result<(CommitType, BumpRule), BumpRuleParse>)
    ensures
        (match r {
            Ok(p) => parse_rule_piece_spec(piece@) == Ok::<_, (Seq<char>, Seq<char>)>((
                p.0@,
                p.1,
            )),
            Err(e) => parse_rule_piece_spec(piece@) == Err::<(CommitTypeV, BumpRule), _>(e@),
        }),
{
    let parts = split_chars(piece, '=');
    proof {
        assert(parts.deep_view().len() == parts@.len());
    }
    if parts.len() < 2 {
        return Err(BumpRuleParse::ParseError(
            chars_to_string(piece),
            String::from_str("missing bump kind"),
        ));
    }
    proof {
        assert(parts.deep_view()[0] =~= parts@[0]@);
        assert(parts.deep_view()[1] =~= parts@[1]@);
    }
    let ct = CommitType::parse_token(&parts[0]);
    match BumpRule::parse_chars(&parts[1]) {
        Some(b) => Ok((ct, b)),
        None => Err(BumpRuleParse::ParseError(
            chars_to_string(&parts[1]),
            String::from_str("Did not match"),
        )),
    }
}

/// Parses user-supplied rule strings: each argument holds one or more
/// comma-separated `category=bump` rules. A malformed rule fails the whole
/// parse with the first offending piece.
pub fn parse_rules(args: &Vec<String>) -> (r: Result<Vec<(CommitType, BumpRule)>, BumpRuleParse>)
    ensures
        (match r {
            Ok(rs) => parse_rules_spec(args.deep_view()) == Ok::<_, (Seq<char>, Seq<char>)>(
                rules_view(rs@),
            ),
            Err(e) => parse_rules_spec(args.deep_view()) == Err::<Seq<(CommitTypeV, BumpRule)>, _>(
                e@,
            ),
        }),
{
    // flatten the comma-separated pieces of every argument
    let mut pieces: Vec<Vec<char>> = Vec::new();
    let mut i: usize = 0;
    proof {
        assert(args.deep_view().skip(0) =~~= args.deep_view());
        assert(pieces.deep_view() =~~= Seq::<Seq<char>>::empty());
        assert(pieces.deep_view() + rule_pieces_of(args.deep_view()) =~~= rule_pieces_of(
            args.deep_view(),
        ));
    }
    while i < args.len()
        invariant
            i <= args@.len(),
            args.deep_view().len() == args@.len(),
            rule_pieces_of(args.deep_view()) == pieces.deep_view() + rule_pieces_of(
                args.deep_view().skip(i as int),
            ),
        decreases args@.len() - i,
    {
        let ghost rest = args.deep_view().skip(i as int);
        proof {
            assert(rest[0] =~= args.deep_view()[i as int]);
            assert(rest.drop_first() =~= args.deep_view().skip(i + 1 as int));
        }
        let chars = str_to_chars(args[i].as_str());
        proof {
            assert(chars@ =~= args.deep_view()[i as int]);
        }
        let mut new_pieces = split_chars(&chars, ',');
        let ghost old_pieces = pieces.deep_view();
        let ghost split = new_pieces.deep_view();
        let mut k: usize = 0;
        while k < new_pieces.len()
            invariant
                k <= new_pieces@.len(),
                split == new_pieces.deep_view(),
                split.len() == new_pieces@.len(),
                pieces.deep_view() == old_pieces + split.take(k as int),
            decreases new_pieces@.len() - k,
        {
            let ghost before = pieces.deep_view();
            let piece = crate::text::subrange_vec(&new_pieces[k], 0, new_pieces[k].len());
            proof {
                assert(piece@ =~= new_pieces@[k as int]@);
                assert(piece@ =~= split[k as int]);
            }
            pieces.push(piece);
            proof {
                assert(pieces.deep_view() =~~= before.push(split[k as int]));
                assert(before.push(split[k as int]) =~~= old_pieces + split.take(k + 1 as int));
            }
            k = k + 1;
        }
        proof {
            assert(split.take(new_pieces@.len() as int) =~~= split);
            assert(rule_pieces_of(rest) == split_char(chars@, ',') + rule_pieces_of(
                args.deep_view().skip(i + 1 as int),
            ));
            assert(pieces.deep_view() + rule_pieces_of(args.deep_view().skip(i + 1 as int))
                =~~= old_pieces + rule_pieces_of(rest));
        }
        i = i + 1;
    }
    proof {
        assert(args.deep_view().skip(args.deep_view().len() as int).len() == 0);
        assert(rule_pieces_of(args.deep_view()) =~~= pieces.deep_view());
    }
    // parse the pieces in order
    let ghost pd = pieces.deep_view();
    let mut out: Vec<(CommitType, BumpRule)> = Vec::new();
    let mut j: usize = 0;
    proof {
        assert(pd.skip(0) =~~= pd);
        assert(rules_view(out@) + Seq::<(CommitTypeV, BumpRule)>::empty() =~= rules_view(out@));
    }
    while j < pieces.len()
        invariant
            j <= pieces@.len(),
            pd == pieces.deep_view(),
            pd.len() == pieces@.len(),
            rule_pieces_of(args.deep_view()) == pd,
            parse_pieces_spec(pd) == (match parse_pieces_spec(pd.skip(j as int)) {
                Err(e) => Err::<Seq<(CommitTypeV, BumpRule)>, _>(e),
                Ok(rest) => Ok::<_, (Seq<char>, Seq<char>)>(rules_view(out@) + rest),
            }),
        decreases pieces@.len() - j,
    {
        let ghost rest = pd.skip(j as int);
        proof {
            assert(rest[0] =~= pd[j as int]);
            assert(rest.drop_first() =~= pd.skip(j + 1 as int));
            assert(pieces@[j as int]@ =~= pd[j as int]);
        }
        match parse_rule_piece(&pieces[j]) {
            Ok(p) => {
                let ghost before = rules_view(out@);
                let ghost pv = (p.0@, p.1);
                out.push(p);
                proof {
                    assert(rules_view(out@) =~= before.push(pv));
                    let tail = parse_pieces_spec(pd.skip(j + 1 as int));
                    if tail is Ok {
                        let rr = tail->Ok_0;
                        assert(before + (seq![pv] + rr) =~= before.push(pv) + rr);
                    }
                }
            },
            Err(e) => {
                proof {
                    assert(parse_rule_piece_spec(pd[j as int]) == Err::<
                        (CommitTypeV, BumpRule),
                        _,
                    >(e@));
                    assert(parse_pieces_spec(pd.skip(j as int)) == Err::<
                        Seq<(CommitTypeV, BumpRule)>,
                        _,
                    >(e@));
                    assert(parse_pieces_spec(pd) == Err::<Seq<(CommitTypeV, BumpRule)>, _>(e@));
                }
                return Err(e);
            },
        }
        j = j + 1;
    }
    proof {
        assert(pd.skip(pd.len() as int).len() == 0);
        assert(rules_view(out@) + Seq::<(CommitTypeV, BumpRule)>::empty() =~= rules_view(out@));
    }
    Ok(out)
}

// ---------------------------------------------------------------------------
// Precedence
// ---------------------------------------------------------------------------

/// Composes rule lists in precedence order, highest first.
pub fn compose_rules(
    cli: &Vec<(CommitType, BumpRule)>,
    config: &Vec<(CommitType, BumpRule)>,
    defaults: &Vec<(CommitType, BumpRule)>,
) -> (r: Vec<(CommitType, BumpRule)>)
    ensures
        r@ == cli@ + config@ + defaults@,
{
    let mut out: Vec<(CommitType, BumpRule)> = Vec::new();
    push_all_rules(&mut out, cli);
    push_all_rules(&mut out, config);
    push_all_rules(&mut out, defaults);
    proof {
        assert(out@ =~= cli@ + config@ + defaults@);
    }
    out
}

fn push_all_rules(dst: &mut Vec<(CommitType, BumpRule)>, src: &Vec<(CommitType, BumpRule)>)
    ensures
        final(dst)@ == old(dst)@ + src@,
{
    let mut i: usize = 0;
    while i < src.len()
        invariant
            i <= src@.len(),
            dst@ == old(dst)@ + src@.take(i as int),
        decreases src@.len() - i,
    {
        let p = (src[i].0.clone(), src[i].1);
        dst.push(p);
        proof {
            assert(dst@ =~= old(dst)@ + src@.take(i + 1 as int));
        }
        i = i + 1;
    }
    proof {
        assert(old(dst)@ + src@.take(src@.len() as int) =~= old(dst)@ + src@);
    }
}

/// Rule resolution is monotone in precedence: rules prepended with higher
/// precedence change nothing for a category that none of them names.
pub proof fn lemma_rule_precedence_monotone(
    added: Seq<(CommitType, BumpRule)>,
    rest: Seq<(CommitType, BumpRule)>,
    c: CommitTypeV,
)
    requires
        forall|i: int| 0 <= i < added.len() ==> added[i].0@ != c,
    ensures
        lookup_rule(added + rest, c) == lookup_rule(rest, c),
    decreases added.len(),
{
    if added.len() == 0 {
        assert(added + rest =~= rest);
    } else {
        let whole = added + rest;
        assert(whole[0] == added[0]);
        assert(whole.drop_first() =~= added.drop_first() + rest);
        assert(forall|i: int|
            0 <= i < added.drop_first().len() ==> added.drop_first()[i].0@ != c);
        lemma_rule_precedence_monotone(added.drop_first(), rest, c);
    }
}

} // verus!
