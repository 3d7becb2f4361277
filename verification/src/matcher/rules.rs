//! The tie-break rule engine: reducing a region's candidates to the best
//! per transcript ([`apply_rules`]) and the best transcript per gene
//! ([`select_transcript`]).
//!
//! Both take an explicit grouping, a list of `(key, positions)` pairs with
//! distinct keys, and process the groups in order of the key's first
//! appearance in the candidate list; grouping keys that no candidate
//! mentions are processed afterwards in lexicographic order (a safety net
//! for callers that group by something else than the candidate fields).

use vstd::prelude::*;

use crate::pct::Pct;
use crate::text::{spec_lex_lt, str_lt};
use crate::types::{Area, Candidate, CandidateModel};

verus! {

/// A grouping entry at the model level: the key and the positions it
/// groups.
pub type GroupModel = (Seq<char>, Seq<int>);

/// The model of a grouping list.
pub open spec fn groups_view(groups: Seq<(String, Vec<usize>)>) -> Seq<GroupModel> {
    groups.map_values(|g: (String, Vec<usize>)| (g.0@, g.1@.map_values(|p: usize| p as int)))
}

/// The model of a candidate list.
pub open spec fn cands_view(cands: Seq<Candidate>) -> Seq<CandidateModel> {
    cands.map_values(|c: Candidate| c@)
}

/// Group keys are distinct.
pub open spec fn distinct_keys(groups: Seq<GroupModel>) -> bool {
    forall|i: int, j: int| 0 <= i < j < groups.len() ==> groups[i].0 != groups[j].0
}

/// Every grouped position indexes into the candidate list.
pub open spec fn positions_in_range(groups: Seq<GroupModel>, n: int) -> bool {
    forall|i: int, j: int|
        0 <= i < groups.len() && 0 <= j < groups[i].1.len() ==> 0 <= #[trigger] groups[i].1[j] < n
}

/// The grouping key of a candidate: its gene id or its transcript id.
pub open spec fn spec_key_of(by_gene: bool, c: CandidateModel) -> Seq<char> {
    if by_gene {
        c.gene
    } else {
        c.transcript
    }
}

/// First-appearance ordering: scanning the candidates left to right, the
/// index of each group whose key first appears here is appended once.
pub open spec fn spec_key_order_fold(
    groups: Seq<GroupModel>,
    cands: Seq<CandidateModel>,
    by_gene: bool,
    acc: Seq<int>,
) -> Seq<int>
    decreases cands.len(),
{
    if cands.len() == 0 {
        acc
    } else {
        let k = spec_key_of(by_gene, cands.first());
        let acc2 = if exists|g: int| 0 <= g < groups.len() && groups[g].0 == k {
            let g = choose|g: int| 0 <= g < groups.len() && groups[g].0 == k;
            if acc.contains(g) {
                acc
            } else {
                acc.push(g)
            }
        } else {
            acc
        };
        spec_key_order_fold(groups, cands.drop_first(), by_gene, acc2)
    }
}

/// Insertion of group index `g` into a list of group indices sorted
/// lexicographically by key: before the first entry whose key is greater.
pub open spec fn spec_lex_insert(sorted: Seq<int>, groups: Seq<GroupModel>, g: int) -> Seq<int>
    decreases sorted.len(),
{
    if sorted.len() == 0 {
        seq![g]
    } else if spec_lex_lt(groups[g].0, groups[sorted.first()].0) {
        seq![g] + sorted
    } else {
        seq![sorted.first()] + spec_lex_insert(sorted.drop_first(), groups, g)
    }
}

/// The group indices from `j` up that `present` does not hold, inserted
/// one by one into `acc` in lexicographic key order.
pub open spec fn spec_remaining_sorted(
    groups: Seq<GroupModel>,
    present: Seq<int>,
    j: int,
    acc: Seq<int>,
) -> Seq<int>
    decreases groups.len() - j,
{
    if j >= groups.len() {
        acc
    } else {
        let acc2 = if present.contains(j) {
            acc
        } else {
            spec_lex_insert(acc, groups, j)
        };
        spec_remaining_sorted(groups, present, j + 1, acc2)
    }
}

/// The order the groups are processed in: keys in order of first
/// appearance in the candidate list, then the groups no candidate
/// mentions, in lexicographic key order.
pub open spec fn spec_key_order(
    groups: Seq<GroupModel>,
    cands: Seq<CandidateModel>,
    by_gene: bool,
) -> Seq<int> {
    let first = spec_key_order_fold(groups, cands, by_gene, Seq::empty());
    first + spec_remaining_sorted(groups, first, 0, Seq::empty())
}

/// The index of the group with this key, scanning from the left.
fn find_group(groups: &Vec<(String, Vec<usize>)>, key: &String) -> (r: Option<usize>)
    ensures
        r matches Some(g) ==> 0 <= g < groups@.len() && groups_view(groups@)[g as int].0 == key@,
        r is None ==> forall|g: int|
            0 <= g < groups@.len() ==> groups_view(groups@)[g].0 != key@,
{
    let n = groups.len();
    let mut i: usize = 0;
    while i < n
        invariant
            i <= n,
            n == groups@.len(),
            forall|g: int| 0 <= g < i ==> groups_view(groups@)[g].0 != key@,
        decreases n - i,
    {
        if groups[i].0.eq(key) {
            return Some(i);
        }
        proof {
            assert(groups_view(groups@)[i as int].0 == groups@[i as int].0@);
        }
        i += 1;
    }
    None
}

/// Whether the order list already holds this group index.
fn order_contains(order: &Vec<usize>, g: usize) -> (r: bool)
    ensures
        r == order@.map_values(|p: usize| p as int).contains(g as int),
{
    let n = order.len();
    let mut i: usize = 0;
    while i < n
        invariant
            i <= n,
            n == order@.len(),
            forall|j: int| 0 <= j < i ==> order@[j] != g,
        decreases n - i,
    {
        if order[i] == g {
            proof {
                assert(order@.map_values(|p: usize| p as int)[i as int] == g as int);
            }
            return true;
        }
        i += 1;
    }
    proof {
        let m = order@.map_values(|p: usize| p as int);
        assert forall|j: int| 0 <= j < m.len() implies m[j] != g as int by {
            assert(m[j] == order@[j] as int);
        }
    }
    false
}

/// Split of lexicographic insertion at a scan position: once every entry
/// before `p` is known not to be greater than the key of `g`, the
/// insertion happens within the tail.
proof fn lemma_lex_insert_split(sorted: Seq<int>, groups: Seq<GroupModel>, g: int, p: int)
    requires
        0 <= p <= sorted.len(),
        forall|q: int| 0 <= q < p ==> !spec_lex_lt(groups[g].0, groups[#[trigger] sorted[q]].0),
    ensures
        spec_lex_insert(sorted, groups, g) == sorted.take(p) + spec_lex_insert(
            sorted.skip(p),
            groups,
            g,
        ),
    decreases p,
{
    if p == 0 {
        assert(sorted.take(0) =~= Seq::<int>::empty());
        assert(sorted.skip(0) =~= sorted);
        assert(sorted.take(0) + spec_lex_insert(sorted, groups, g) =~= spec_lex_insert(
            sorted,
            groups,
            g,
        ));
    } else {
        assert(sorted.len() > 0);
        assert(!spec_lex_lt(groups[g].0, groups[sorted[0]].0));
        lemma_lex_insert_split(sorted.drop_first(), groups, g, p - 1);
        assert(sorted.drop_first().take(p - 1) =~= sorted.take(p).drop_first());
        assert(sorted.drop_first().skip(p - 1) =~= sorted.skip(p));
        assert(seq![sorted.first()] + (sorted.take(p).drop_first() + spec_lex_insert(
            sorted.skip(p),
            groups,
            g,
        )) =~= sorted.take(p) + spec_lex_insert(sorted.skip(p), groups, g));
    }
}

/// Insert group index `g` into the order list, keeping it sorted
/// lexicographically by key.
fn lex_insert(order: &mut Vec<usize>, groups: &Vec<(String, Vec<usize>)>, g: usize)
    requires
        g < groups@.len(),
        forall|j: int| 0 <= j < old(order)@.len() ==> old(order)@[j] < groups@.len(),
    ensures
        final(order)@.map_values(|p: usize| p as int) == spec_lex_insert(
            old(order)@.map_values(|p: usize| p as int),
            groups_view(groups@),
            g as int,
        ),
        forall|j: int| 0 <= j < final(order)@.len() ==> final(order)@[j] < groups@.len(),
{
    let ghost gm = groups_view(groups@);
    let ghost sorted0 = order@.map_values(|p: usize| p as int);
    let n = order.len();
    proof {
        assert(sorted0.len() == order@.len());
    }
    let mut p: usize = 0;
    while p < n && !str_lt(&groups[g].0, &groups[order[p]].0)
        invariant
            p <= n,
            n == order@.len(),
            *order == *old(order),
            gm == groups_view(groups@),
            sorted0 == order@.map_values(|p: usize| p as int),
            g < groups@.len(),
            forall|j: int| 0 <= j < order@.len() ==> order@[j] < groups@.len(),
            forall|q: int| 0 <= q < p ==> !spec_lex_lt(gm[g as int].0, gm[#[trigger] sorted0[q]].0),
        decreases n - p,
    {
        proof {
            assert(p < n);
            assert(order@ == old(order)@);
            assert(sorted0.len() == n);
            assert(sorted0[p as int] == order@[p as int] as int);
            assert(gm[order@[p as int] as int].0 == groups@[order@[p as int] as int].0@);
        }
        p += 1;
    }
    proof {
        lemma_lex_insert_split(sorted0, gm, g as int, p as int);
        if p < n {
            assert(sorted0[p as int] == order@[p as int] as int);
            assert(spec_lex_lt(gm[g as int].0, gm[sorted0[p as int]].0));
            assert(sorted0.skip(p as int).first() == sorted0[p as int]);
            assert(spec_lex_insert(sorted0.skip(p as int), gm, g as int) == seq![g as int]
                + sorted0.skip(p as int));
        } else {
            assert(sorted0.skip(p as int) =~= Seq::<int>::empty());
        }
    }
    order.insert(p, g);
    proof {
        assert(order@.map_values(|p: usize| p as int) =~= sorted0.take(p as int) + (seq![g as int]
            + sorted0.skip(p as int)));
        assert(spec_lex_insert(sorted0, gm, g as int) =~= sorted0.take(p as int) + (seq![
            g as int,
        ] + sorted0.skip(p as int)));
    }
}

/// Compute the group processing order: first appearance in the candidate
/// list, then the unmentioned groups in lexicographic key order.
fn key_order(
    candidates: &Vec<Candidate>,
    groups: &Vec<(String, Vec<usize>)>,
    by_gene: bool,
) -> (r: Vec<usize>)
    requires
        distinct_keys(groups_view(groups@)),
    ensures
        r@.map_values(|p: usize| p as int) == spec_key_order(
            groups_view(groups@),
            cands_view(candidates@),
            by_gene,
        ),
        forall|j: int| 0 <= j < r@.len() ==> r@[j] < groups@.len(),
{
    let ghost gm = groups_view(groups@);
    let ghost cm = cands_view(candidates@);
    let n = candidates.len();
    let mut first: Vec<usize> = Vec::new();
    let mut i: usize = 0;
    proof {
        assert(cm.skip(0) =~= cm);
        assert(first@.map_values(|p: usize| p as int) =~= Seq::<int>::empty());
    }
    while i < n
        invariant
            i <= n,
            n == candidates@.len(),
            cm == cands_view(candidates@),
            gm == groups_view(groups@),
            distinct_keys(gm),
            cm.len() == n,
            forall|j: int| 0 <= j < first@.len() ==> first@[j] < groups@.len(),
            spec_key_order_fold(gm, cm.skip(i as int), by_gene, first@.map_values(|p: usize| p as int))
                == spec_key_order_fold(gm, cm, by_gene, Seq::empty()),
        decreases n - i,
    {
        let ghost acc0 = first@.map_values(|p: usize| p as int);
        let ghost suffix = cm.skip(i as int);
        proof {
            assert(suffix.first() == cm[i as int]);
            assert(cm[i as int] == candidates@[i as int]@);
            assert(suffix.drop_first() =~= cm.skip(i + 1));
        }
        let key = if by_gene {
            &candidates[i].gene
        } else {
            &candidates[i].transcript
        };
        proof {
            assert(key@ == spec_key_of(by_gene, cm[i as int]));
        }
        match find_group(groups, key) {
            Some(g) => {
                proof {
                    let k = spec_key_of(by_gene, suffix.first());
                    assert(gm[g as int].0 == k);
                    let gc = choose|gc: int| 0 <= gc < gm.len() && gm[gc].0 == k;
                    assert(gm[gc].0 == k);
                    if gc != g as int {
                        assert(false);
                    }
                }
                if !order_contains(&first, g) {
                    first.push(g);
                    proof {
                        assert(first@.map_values(|p: usize| p as int) =~= acc0.push(g as int));
                    }
                }
            },
            None => {},
        }
        i += 1;
    }
    proof {
        assert(cm.skip(n as int) =~= Seq::<CandidateModel>::empty());
    }
    let ghost first_model = first@.map_values(|p: usize| p as int);
    // append the groups no candidate mentions, in lexicographic key order
    let mut rest: Vec<usize> = Vec::new();
    let mut j: usize = 0;
    let gn = groups.len();
    proof {
        assert(rest@.map_values(|p: usize| p as int) =~= Seq::<int>::empty());
    }
    while j < gn
        invariant
            j <= gn,
            gn == groups@.len(),
            gm == groups_view(groups@),
            first_model == first@.map_values(|p: usize| p as int),
            forall|q: int| 0 <= q < rest@.len() ==> rest@[q] < groups@.len(),
            spec_remaining_sorted(gm, first_model, j as int, rest@.map_values(|p: usize| p as int))
                == spec_remaining_sorted(gm, first_model, 0, Seq::empty()),
        decreases gn - j,
    {
        let ghost rest_old = rest@.map_values(|p: usize| p as int);
        let absent = !order_contains(&first, j);
        if absent {
            lex_insert(&mut rest, groups, j);
        }
        proof {
            let rest_new = rest@.map_values(|p: usize| p as int);
            if absent {
                assert(rest_new == spec_lex_insert(rest_old, gm, j as int));
            } else {
                assert(rest_new == rest_old);
            }
            assert(spec_remaining_sorted(gm, first_model, j as int, rest_old)
                == spec_remaining_sorted(gm, first_model, j + 1, rest_new));
        }
        j += 1;
    }
    proof {
        assert(spec_remaining_sorted(gm, first_model, gn as int, rest@.map_values(|p: usize| p as int))
            == rest@.map_values(|p: usize| p as int));
    }
    let ghost rest_model = rest@.map_values(|p: usize| p as int);
    let mut out = first;
    let mut rest = rest;
    out.append(&mut rest);
    proof {
        assert(out@.map_values(|p: usize| p as int) =~= first_model + rest_model);
    }
    out
}


// ---------- apply_rules ----------

/// The candidates a position list selects, in order.
pub open spec fn spec_positions_cands(cands: Seq<CandidateModel>, positions: Seq<int>) -> Seq<
    CandidateModel,
> {
    positions.map_values(|p: int| cands[p])
}

/// The greatest region-coverage percentage folded left to right over
/// `init`; on equal rational values the earlier representation is kept.
pub open spec fn spec_max_region_pct(gc: Seq<CandidateModel>, init: Pct) -> Pct
    decreases gc.len(),
{
    if gc.len() == 0 {
        init
    } else {
        let prev = spec_max_region_pct(gc.drop_last(), init);
        if !gc.last().pctg_region.spec_le(prev) {
            gc.last().pctg_region
        } else {
            prev
        }
    }
}

/// The greatest area-coverage percentage folded left to right over `init`.
pub open spec fn spec_max_area_pct(gc: Seq<CandidateModel>, init: Pct) -> Pct
    decreases gc.len(),
{
    if gc.len() == 0 {
        init
    } else {
        let prev = spec_max_area_pct(gc.drop_last(), init);
        if !gc.last().pctg_area.spec_le(prev) {
            gc.last().pctg_area
        } else {
            prev
        }
    }
}

/// The first rule in priority order matched by any candidate selects all
/// candidates with that area, in input order; when no rule matches,
/// nothing is selected.
pub open spec fn spec_first_rule_matches(gc: Seq<CandidateModel>, rules: Seq<Area>) -> Seq<
    CandidateModel,
>
    decreases rules.len(),
{
    if rules.len() == 0 {
        Seq::empty()
    } else {
        let m = gc.filter(|c: CandidateModel| c.area == rules.first());
        if m.len() > 0 {
            m
        } else {
            spec_first_rule_matches(gc, rules.drop_first())
        }
    }
}

/// The winners of one group of candidates under the tie-break rules:
///
/// 1. a singleton group passes through unchanged;
/// 2. candidates at or above the region-coverage threshold are kept; a
///    lone survivor wins, no survivor falls back to the whole group;
/// 3. among those, candidates at or above the area-coverage threshold are
///    kept, with the same lone-survivor/fall-back treatment;
/// 4. among the remainder only those with the maximum region coverage
///    (exact rational equality) stay;
/// 5. if several remain, the first area in the priority order with any
///    match selects all its candidates (true ties are all reported).
pub open spec fn spec_group_winners(
    gc: Seq<CandidateModel>,
    perc_region: Pct,
    perc_area: Pct,
    rules: Seq<Area>,
) -> Seq<CandidateModel> {
    if gc.len() == 1 {
        gc
    } else {
        let by_region = gc.filter(|c: CandidateModel| perc_region.spec_le(c.pctg_region));
        if by_region.len() == 1 {
            by_region
        } else {
            let base = if by_region.len() == 0 {
                gc
            } else {
                by_region
            };
            if base.len() > 1 {
                let by_area = base.filter(|c: CandidateModel| perc_area.spec_le(c.pctg_area));
                if by_area.len() == 1 {
                    by_area
                } else {
                    let base2 = if by_area.len() == 0 {
                        base
                    } else {
                        by_area
                    };
                    if base2.len() > 1 {
                        let maxp = spec_max_region_pct(base2, Pct { num: 0i64, den: 1 });
                        let at_max = base2.filter(
                            |c: CandidateModel| c.pctg_region.spec_eq_val(maxp),
                        );
                        if at_max.len() == 1 {
                            at_max
                        } else {
                            spec_first_rule_matches(at_max, rules)
                        }
                    } else {
                        Seq::empty()
                    }
                }
            } else {
                Seq::empty()
            }
        }
    }
}

/// The concatenated group winners, processing groups in the given order.
pub open spec fn spec_results_for_order(
    cands: Seq<CandidateModel>,
    groups: Seq<GroupModel>,
    order: Seq<int>,
    perc_region: Pct,
    perc_area: Pct,
    rules: Seq<Area>,
) -> Seq<CandidateModel>
    decreases order.len(),
{
    if order.len() == 0 {
        Seq::empty()
    } else {
        spec_group_winners(
            spec_positions_cands(cands, groups[order.first()].1),
            perc_region,
            perc_area,
            rules,
        ) + spec_results_for_order(cands, groups, order.drop_first(), perc_region, perc_area, rules)
    }
}

/// What [`apply_rules`] returns: the group winners, groups in key order.
pub open spec fn spec_apply_rules(
    cands: Seq<CandidateModel>,
    groups: Seq<GroupModel>,
    perc_region: Pct,
    perc_area: Pct,
    rules: Seq<Area>,
) -> Seq<CandidateModel> {
    spec_results_for_order(
        cands,
        groups,
        spec_key_order(groups, cands, false),
        perc_region,
        perc_area,
        rules,
    )
}

/// The candidates of one group, cloned out of the candidate list.
fn collect_group(candidates: &Vec<Candidate>, positions: &Vec<usize>) -> (r: Vec<Candidate>)
    requires
        forall|j: int| 0 <= j < positions@.len() ==> positions@[j] < candidates@.len(),
    ensures
        cands_view(r@) == spec_positions_cands(
            cands_view(candidates@),
            positions@.map_values(|p: usize| p as int),
        ),
{
    let ghost cm = cands_view(candidates@);
    let ghost pm = positions@.map_values(|p: usize| p as int);
    let n = positions.len();
    let mut out: Vec<Candidate> = Vec::new();
    let mut i: usize = 0;
    while i < n
        invariant
            i <= n,
            n == positions@.len(),
            cm == cands_view(candidates@),
            pm == positions@.map_values(|p: usize| p as int),
            forall|j: int| 0 <= j < positions@.len() ==> positions@[j] < candidates@.len(),
            cands_view(out@) == spec_positions_cands(cm, pm.take(i as int)),
        decreases n - i,
    {
        let ghost out0 = out@;
        out.push(candidates[positions[i]].clone());
        proof {
            assert(out@[out@.len() - 1]@ == cm[pm[i as int]]);
            assert(cands_view(out@) =~= cands_view(out0).push(cm[pm[i as int]]));
            assert(spec_positions_cands(cm, pm.take(i + 1)) =~= spec_positions_cands(
                cm,
                pm.take(i as int),
            ).push(cm[pm[i as int]]));
        }
        i += 1;
    }
    proof {
        assert(pm.take(n as int) =~= pm);
    }
    out
}

/// The candidates at or above the region-coverage threshold, in order.
fn filter_by_region(v: &Vec<Candidate>, t: Pct) -> (r: Vec<Candidate>)
    ensures
        cands_view(r@) == cands_view(v@).filter(|c: CandidateModel| t.spec_le(c.pctg_region)),
{
    let ghost cm = cands_view(v@);
    let ghost pred = |c: CandidateModel| t.spec_le(c.pctg_region);
    let n = v.len();
    let mut out: Vec<Candidate> = Vec::new();
    let mut i: usize = 0;
    proof {
        reveal(Seq::filter);
        assert(cm.take(0) =~= Seq::<CandidateModel>::empty());
    }
    while i < n
        invariant
            i <= n,
            n == v@.len(),
            cm == cands_view(v@),
            pred == (|c: CandidateModel| t.spec_le(c.pctg_region)),
            cands_view(out@) == cm.take(i as int).filter(pred),
        decreases n - i,
    {
        let ghost out0 = out@;
        proof {
            reveal(Seq::filter);
            assert(cm.take(i + 1).drop_last() =~= cm.take(i as int));
            assert(cm.take(i + 1).last() == cm[i as int]);
        }
        if v[i].pctg_region.ge(&t) {
            out.push(v[i].clone());
            proof {
                assert(cands_view(out@) =~= cands_view(out0).push(cm[i as int]));
            }
        }
        i += 1;
    }
    proof {
        assert(cm.take(n as int) =~= cm);
    }
    out
}

/// The candidates at or above the area-coverage threshold, in order.
fn filter_by_area(v: &Vec<Candidate>, t: Pct) -> (r: Vec<Candidate>)
    ensures
        cands_view(r@) == cands_view(v@).filter(|c: CandidateModel| t.spec_le(c.pctg_area)),
{
    let ghost cm = cands_view(v@);
    let ghost pred = |c: CandidateModel| t.spec_le(c.pctg_area);
    let n = v.len();
    let mut out: Vec<Candidate> = Vec::new();
    let mut i: usize = 0;
    proof {
        reveal(Seq::filter);
        assert(cm.take(0) =~= Seq::<CandidateModel>::empty());
    }
    while i < n
        invariant
            i <= n,
            n == v@.len(),
            cm == cands_view(v@),
            pred == (|c: CandidateModel| t.spec_le(c.pctg_area)),
            cands_view(out@) == cm.take(i as int).filter(pred),
        decreases n - i,
    {
        let ghost out0 = out@;
        proof {
            reveal(Seq::filter);
            assert(cm.take(i + 1).drop_last() =~= cm.take(i as int));
            assert(cm.take(i + 1).last() == cm[i as int]);
        }
        if v[i].pctg_area.ge(&t) {
            out.push(v[i].clone());
            proof {
                assert(cands_view(out@) =~= cands_view(out0).push(cm[i as int]));
            }
        }
        i += 1;
    }
    proof {
        assert(cm.take(n as int) =~= cm);
    }
    out
}

/// The greatest region-coverage percentage in the list.
fn max_region_pct(v: &Vec<Candidate>) -> (r: Pct)
    ensures
        r == spec_max_region_pct(cands_view(v@), Pct { num: 0i64, den: 1 }),
{
    let ghost cm = cands_view(v@);
    let n = v.len();
    let mut m = Pct::whole(0);
    let mut i: usize = 0;
    proof {
        assert(cm.take(0) =~= Seq::<CandidateModel>::empty());
    }
    while i < n
        invariant
            i <= n,
            n == v@.len(),
            cm == cands_view(v@),
            m == spec_max_region_pct(cm.take(i as int), Pct { num: 0i64, den: 1 }),
        decreases n - i,
    {
        proof {
            assert(cm.take(i + 1).drop_last() =~= cm.take(i as int));
            assert(cm.take(i + 1).last() == cm[i as int]);
        }
        if v[i].pctg_region.gt(&m) {
            m = v[i].pctg_region;
        }
        i += 1;
    }
    proof {
        assert(cm.take(n as int) =~= cm);
    }
    m
}

/// The candidates whose region coverage equals `maxp` as a rational.
fn filter_at_max(v: &Vec<Candidate>, maxp: Pct) -> (r: Vec<Candidate>)
    ensures
        cands_view(r@) == cands_view(v@).filter(
            |c: CandidateModel| c.pctg_region.spec_eq_val(maxp),
        ),
{
    let ghost cm = cands_view(v@);
    let ghost pred = |c: CandidateModel| c.pctg_region.spec_eq_val(maxp);
    let n = v.len();
    let mut out: Vec<Candidate> = Vec::new();
    let mut i: usize = 0;
    proof {
        reveal(Seq::filter);
        assert(cm.take(0) =~= Seq::<CandidateModel>::empty());
    }
    while i < n
        invariant
            i <= n,
            n == v@.len(),
            cm == cands_view(v@),
            pred == (|c: CandidateModel| c.pctg_region.spec_eq_val(maxp)),
            cands_view(out@) == cm.take(i as int).filter(pred),
        decreases n - i,
    {
        let ghost out0 = out@;
        proof {
            reveal(Seq::filter);
            assert(cm.take(i + 1).drop_last() =~= cm.take(i as int));
            assert(cm.take(i + 1).last() == cm[i as int]);
        }
        if v[i].pctg_region.eq_val(&maxp) {
            out.push(v[i].clone());
            proof {
                assert(cands_view(out@) =~= cands_view(out0).push(cm[i as int]));
            }
        }
        i += 1;
    }
    proof {
        assert(cm.take(n as int) =~= cm);
    }
    out
}

/// The candidates with the given area, in order.
fn filter_by_area_tag(v: &Vec<Candidate>, a: Area) -> (r: Vec<Candidate>)
    ensures
        cands_view(r@) == cands_view(v@).filter(|c: CandidateModel| c.area == a),
{
    let ghost cm = cands_view(v@);
    let ghost pred = |c: CandidateModel| c.area == a;
    let n = v.len();
    let mut out: Vec<Candidate> = Vec::new();
    let mut i: usize = 0;
    proof {
        reveal(Seq::filter);
        assert(cm.take(0) =~= Seq::<CandidateModel>::empty());
    }
    while i < n
        invariant
            i <= n,
            n == v@.len(),
            cm == cands_view(v@),
            pred == (|c: CandidateModel| c.area == a),
            cands_view(out@) == cm.take(i as int).filter(pred),
        decreases n - i,
    {
        let ghost out0 = out@;
        proof {
            reveal(Seq::filter);
            assert(cm.take(i + 1).drop_last() =~= cm.take(i as int));
            assert(cm.take(i + 1).last() == cm[i as int]);
        }
        if v[i].area == a {
            out.push(v[i].clone());
            proof {
                assert(cands_view(out@) =~= cands_view(out0).push(cm[i as int]));
            }
        }
        i += 1;
    }
    proof {
        assert(cm.take(n as int) =~= cm);
    }
    out
}

/// The candidates selected by the first matching rule in priority order.
fn first_rule_matches(v: &Vec<Candidate>, rules: &Vec<Area>) -> (r: Vec<Candidate>)
    ensures
        cands_view(r@) == spec_first_rule_matches(cands_view(v@), rules@),
{
    let ghost cm = cands_view(v@);
    let n = rules.len();
    let mut i: usize = 0;
    proof {
        assert(rules@.skip(0) =~= rules@);
    }
    while i < n
        invariant
            i <= n,
            n == rules@.len(),
            cm == cands_view(v@),
            spec_first_rule_matches(cm, rules@.skip(i as int)) == spec_first_rule_matches(
                cm,
                rules@,
            ),
        decreases n - i,
    {
        proof {
            assert(rules@.skip(i as int).first() == rules@[i as int]);
            assert(rules@.skip(i as int).drop_first() =~= rules@.skip(i + 1));
        }
        let m = filter_by_area_tag(v, rules[i]);
        if m.len() > 0 {
            proof {
                assert(cands_view(m@).len() > 0);
            }
            return m;
        }
        proof {
            assert(cands_view(m@).len() == 0);
        }
        i += 1;
    }
    proof {
        assert(rules@.skip(n as int) =~= Seq::<Area>::empty());
    }
    Vec::new()
}

/// The winners of one group of candidates, exactly as
/// [`spec_group_winners`] defines them.
fn group_winners(
    candidates: &Vec<Candidate>,
    positions: &Vec<usize>,
    perc_region: Pct,
    perc_area: Pct,
    rules: &Vec<Area>,
) -> (r: Vec<Candidate>)
    requires
        forall|j: int| 0 <= j < positions@.len() ==> positions@[j] < candidates@.len(),
    ensures
        cands_view(r@) == spec_group_winners(
            spec_positions_cands(
                cands_view(candidates@),
                positions@.map_values(|p: usize| p as int),
            ),
            perc_region,
            perc_area,
            rules@,
        ),
{
    let gcands = collect_group(candidates, positions);
    if gcands.len() == 1 {
        return gcands;
    }
    let by_region = filter_by_region(&gcands, perc_region);
    if by_region.len() == 1 {
        proof {
            assert(cands_view(by_region@).len() == 1);
        }
        return by_region;
    }
    let base = if by_region.len() == 0 {
        gcands
    } else {
        by_region
    };
    if base.len() > 1 {
        let by_area = filter_by_area(&base, perc_area);
        if by_area.len() == 1 {
            return by_area;
        }
        let base2 = if by_area.len() == 0 {
            base
        } else {
            by_area
        };
        if base2.len() > 1 {
            let maxp = max_region_pct(&base2);
            let at_max = filter_at_max(&base2, maxp);
            if at_max.len() == 1 {
                return at_max;
            }
            return first_rule_matches(&at_max, rules);
        }
    }
    Vec::new()
}

/// Apply the tie-break rules to every group: singleton groups pass
/// through; larger groups are reduced by the threshold filters, the
/// maximum region coverage, and the priority order, as
/// [`spec_apply_rules`] defines exactly. Groups are processed in order of
/// their key's first appearance among the candidates, then the
/// unmentioned groups in lexicographic key order.
pub fn apply_rules(
    candidates: &Vec<Candidate>,
    grouped_by: &Vec<(String, Vec<usize>)>,
    perc_region: Pct,
    perc_area: Pct,
    rules: &Vec<Area>,
) -> (r: Vec<Candidate>)
    requires
        distinct_keys(groups_view(grouped_by@)),
        positions_in_range(groups_view(grouped_by@), candidates@.len() as int),
    ensures
        cands_view(r@) == spec_apply_rules(
            cands_view(candidates@),
            groups_view(grouped_by@),
            perc_region,
            perc_area,
            rules@,
        ),
{
    let ghost cm = cands_view(candidates@);
    let ghost gm = groups_view(grouped_by@);
    let order = key_order(candidates, grouped_by, false);
    let ghost om = order@.map_values(|p: usize| p as int);
    let n = order.len();
    let mut out: Vec<Candidate> = Vec::new();
    let mut k: usize = 0;
    proof {
        assert(om.skip(0) =~= om);
        assert(cands_view(out@) =~= Seq::<CandidateModel>::empty());
        assert(Seq::<CandidateModel>::empty() + spec_results_for_order(
            cm,
            gm,
            om,
            perc_region,
            perc_area,
            rules@,
        ) =~= spec_results_for_order(cm, gm, om, perc_region, perc_area, rules@));
    }
    while k < n
        invariant
            k <= n,
            n == order@.len(),
            cm == cands_view(candidates@),
            gm == groups_view(grouped_by@),
            om == order@.map_values(|p: usize| p as int),
            positions_in_range(gm, candidates@.len() as int),
            forall|j: int| 0 <= j < order@.len() ==> order@[j] < grouped_by@.len(),
            cands_view(out@) + spec_results_for_order(
                cm,
                gm,
                om.skip(k as int),
                perc_region,
                perc_area,
                rules@,
            ) == spec_results_for_order(cm, gm, om, perc_region, perc_area, rules@),
        decreases n - k,
    {
        let g = order[k];
        proof {
            assert(om.skip(k as int).first() == om[k as int]);
            assert(om.skip(k as int).drop_first() =~= om.skip(k + 1));
            assert(gm[g as int].1 == grouped_by@[g as int].1@.map_values(|p: usize| p as int));
            assert forall|j: int|
                0 <= j < grouped_by@[g as int].1@.len() implies grouped_by@[g as int].1@[j]
                < candidates@.len() by {
                assert(gm[g as int].1[j] == grouped_by@[g as int].1@[j] as int);
            }
        }
        let winners = group_winners(candidates, &grouped_by[g].1, perc_region, perc_area, rules);
        let ghost out0 = out@;
        let wn = winners.len();
        let mut w: usize = 0;
        let mut winners = winners;
        let ghost wm = cands_view(winners@);
        while w < wn
            invariant
                w <= wn,
                wn == winners@.len(),
                wm == cands_view(winners@),
                cands_view(out@) == cands_view(out0) + wm.take(w as int),
            decreases wn - w,
        {
            let ghost outb = out@;
            let c = winners[w].clone();
            out.push(c);
            proof {
                assert(cands_view(out@) =~= cands_view(outb).push(wm[w as int]));
                assert(cands_view(outb).push(wm[w as int]) =~= cands_view(out0) + wm.take(w + 1));
            }
            w += 1;
        }
        proof {
            assert(wm.take(wn as int) =~= wm);
            assert(cands_view(out@) =~= cands_view(out0) + wm);
            assert(cands_view(out@) + spec_results_for_order(
                cm,
                gm,
                om.skip(k + 1),
                perc_region,
                perc_area,
                rules@,
            ) =~= spec_results_for_order(cm, gm, om, perc_region, perc_area, rules@));
        }
        k += 1;
    }
    proof {
        assert(om.skip(n as int) =~= Seq::<int>::empty());
        assert(cands_view(out@) + Seq::<CandidateModel>::empty() =~= cands_view(out@));
    }
    out
}


// ---------- select_transcript ----------

/// The first area in priority order that any group member has.
pub open spec fn spec_rules_area_winner(gc: Seq<CandidateModel>, rules: Seq<Area>) -> Option<Area>
    decreases rules.len(),
{
    if rules.len() == 0 {
        None
    } else if exists|i: int| 0 <= i < gc.len() && gc[i].area == rules.first() {
        Some(rules.first())
    } else {
        spec_rules_area_winner(gc, rules.drop_first())
    }
}

/// The winning area of a gene group: the first area in priority order
/// present among the group's candidates, falling back to the area of the
/// first candidate in input order when no configured area is present.
pub open spec fn spec_area_winner(gc: Seq<CandidateModel>, rules: Seq<Area>) -> Area {
    match spec_rules_area_winner(gc, rules) {
        Some(a) => a,
        None => gc.first().area,
    }
}

/// The comma-joined transcript ids of the group.
pub open spec fn spec_join_transcripts(gc: Seq<CandidateModel>) -> Seq<char>
    decreases gc.len(),
{
    if gc.len() == 0 {
        Seq::empty()
    } else if gc.len() == 1 {
        gc.first().transcript
    } else {
        spec_join_transcripts(gc.drop_last()) + seq![','] + gc.last().transcript
    }
}

/// The comma-joined exon/intron labels of the group.
pub open spec fn spec_join_numbers(gc: Seq<CandidateModel>) -> Seq<char>
    decreases gc.len(),
{
    if gc.len() == 0 {
        Seq::empty()
    } else if gc.len() == 1 {
        gc.first().exon_number
    } else {
        spec_join_numbers(gc.drop_last()) + seq![','] + gc.last().exon_number
    }
}

/// The report of one gene group: a singleton passes through; otherwise
/// the candidates with the winning area are taken, and if several tie
/// they merge into one candidate that joins their transcript ids and
/// labels, takes the maximum coverage percentages, and copies the
/// positional fields from the first of them.
pub open spec fn spec_select_group(gc: Seq<CandidateModel>, rules: Seq<Area>) -> Seq<
    CandidateModel,
> {
    if gc.len() == 0 {
        Seq::empty()
    } else if gc.len() == 1 {
        seq![gc[0]]
    } else {
        let aw = spec_area_winner(gc, rules);
        let wp = gc.filter(|c: CandidateModel| c.area == aw);
        if wp.len() == 1 {
            seq![wp[0]]
        } else {
            seq![
                CandidateModel {
                    start: wp[0].start,
                    end: wp[0].end,
                    strand: wp[0].strand,
                    exon_number: spec_join_numbers(wp),
                    area: wp[0].area,
                    transcript: spec_join_transcripts(wp),
                    gene: wp[0].gene,
                    distance: wp[0].distance,
                    pctg_region: spec_max_region_pct(wp, Pct { num: 0i64, den: 1 }),
                    pctg_area: spec_max_area_pct(wp, Pct { num: 0i64, den: 1 }),
                    tss_distance: wp[0].tss_distance,
                },
            ]
        }
    }
}

/// The concatenated gene-group reports, groups in the given order.
pub open spec fn spec_select_for_order(
    cands: Seq<CandidateModel>,
    groups: Seq<GroupModel>,
    order: Seq<int>,
    rules: Seq<Area>,
) -> Seq<CandidateModel>
    decreases order.len(),
{
    if order.len() == 0 {
        Seq::empty()
    } else {
        spec_select_group(spec_positions_cands(cands, groups[order.first()].1), rules)
            + spec_select_for_order(cands, groups, order.drop_first(), rules)
    }
}

/// What [`select_transcript`] returns: one report per gene group, groups
/// in key order.
pub open spec fn spec_select_transcript(
    cands: Seq<CandidateModel>,
    groups: Seq<GroupModel>,
    rules: Seq<Area>,
) -> Seq<CandidateModel> {
    spec_select_for_order(cands, groups, spec_key_order(groups, cands, true), rules)
}

/// Whether any candidate has this area.
fn contains_area(v: &Vec<Candidate>, a: Area) -> (r: bool)
    ensures
        r == exists|i: int| 0 <= i < cands_view(v@).len() && cands_view(v@)[i].area == a,
{
    let ghost cm = cands_view(v@);
    let n = v.len();
    let mut i: usize = 0;
    while i < n
        invariant
            i <= n,
            n == v@.len(),
            cm == cands_view(v@),
            forall|j: int| 0 <= j < i ==> cm[j].area != a,
        decreases n - i,
    {
        if v[i].area == a {
            proof {
                assert(cm[i as int].area == a);
            }
            return true;
        }
        i += 1;
    }
    false
}

/// The greatest area-coverage percentage in the list.
fn max_area_pct(v: &Vec<Candidate>) -> (r: Pct)
    ensures
        r == spec_max_area_pct(cands_view(v@), Pct { num: 0i64, den: 1 }),
{
    let ghost cm = cands_view(v@);
    let n = v.len();
    let mut m = Pct::whole(0);
    let mut i: usize = 0;
    proof {
        assert(cm.take(0) =~= Seq::<CandidateModel>::empty());
    }
    while i < n
        invariant
            i <= n,
            n == v@.len(),
            cm == cands_view(v@),
            m == spec_max_area_pct(cm.take(i as int), Pct { num: 0i64, den: 1 }),
        decreases n - i,
    {
        proof {
            assert(cm.take(i + 1).drop_last() =~= cm.take(i as int));
            assert(cm.take(i + 1).last() == cm[i as int]);
        }
        if v[i].pctg_area.gt(&m) {
            m = v[i].pctg_area;
        }
        i += 1;
    }
    proof {
        assert(cm.take(n as int) =~= cm);
    }
    m
}

/// The comma-joined transcript ids of the list.
fn join_transcripts(v: &Vec<Candidate>) -> (r: String)
    ensures
        r@ == spec_join_transcripts(cands_view(v@)),
{
    let ghost cm = cands_view(v@);
    let comma = ",";
    proof {
        reveal_strlit(",");
        assert(comma@ =~= seq![',']);
    }
    let n = v.len();
    let mut s = String::new();
    let mut i: usize = 0;
    proof {
        assert(cm.take(0) =~= Seq::<CandidateModel>::empty());
        assert(s@ =~= spec_join_transcripts(cm.take(0)));
    }
    while i < n
        invariant
            i <= n,
            n == v@.len(),
            cm == cands_view(v@),
            comma@ == seq![','],
            s@ == spec_join_transcripts(cm.take(i as int)),
        decreases n - i,
    {
        proof {
            assert(cm.take(i + 1).drop_last() =~= cm.take(i as int));
            assert(cm.take(i + 1).last() == cm[i as int]);
            assert(cm.take(i + 1).first() == cm[0]);
        }
        if i > 0 {
            s.append(comma);
        }
        s.append(v[i].transcript.as_str());
        proof {
            if i == 0 {
                assert(s@ =~= cm[0].transcript);
            } else {
                assert(s@ =~= spec_join_transcripts(cm.take(i as int)) + seq![','] + cm[
                    i as int
                ].transcript);
            }
        }
        i += 1;
    }
    proof {
        assert(cm.take(n as int) =~= cm);
    }
    s
}

/// The comma-joined exon/intron labels of the list.
fn join_numbers(v: &Vec<Candidate>) -> (r: String)
    ensures
        r@ == spec_join_numbers(cands_view(v@)),
{
    let ghost cm = cands_view(v@);
    let comma = ",";
    proof {
        reveal_strlit(",");
        assert(comma@ =~= seq![',']);
    }
    let n = v.len();
    let mut s = String::new();
    let mut i: usize = 0;
    proof {
        assert(cm.take(0) =~= Seq::<CandidateModel>::empty());
        assert(s@ =~= spec_join_numbers(cm.take(0)));
    }
    while i < n
        invariant
            i <= n,
            n == v@.len(),
            cm == cands_view(v@),
            comma@ == seq![','],
            s@ == spec_join_numbers(cm.take(i as int)),
        decreases n - i,
    {
        proof {
            assert(cm.take(i + 1).drop_last() =~= cm.take(i as int));
            assert(cm.take(i + 1).last() == cm[i as int]);
            assert(cm.take(i + 1).first() == cm[0]);
        }
        if i > 0 {
            s.append(comma);
        }
        s.append(v[i].exon_number.as_str());
        proof {
            if i == 0 {
                assert(s@ =~= cm[0].exon_number);
            } else {
                assert(s@ =~= spec_join_numbers(cm.take(i as int)) + seq![','] + cm[
                    i as int
                ].exon_number);
            }
        }
        i += 1;
    }
    proof {
        assert(cm.take(n as int) =~= cm);
    }
    s
}

/// The report of one gene group, exactly as [`spec_select_group`]
/// defines it.
fn select_group(candidates: &Vec<Candidate>, positions: &Vec<usize>, rules: &Vec<Area>) -> (r:
    Vec<Candidate>)
    requires
        forall|j: int| 0 <= j < positions@.len() ==> positions@[j] < candidates@.len(),
    ensures
        cands_view(r@) == spec_select_group(
            spec_positions_cands(
                cands_view(candidates@),
                positions@.map_values(|p: usize| p as int),
            ),
            rules@,
        ),
{
    let gcands = collect_group(candidates, positions);
    let ghost gc = cands_view(gcands@);
    if gcands.len() == 0 {
        proof {
            assert(cands_view(gcands@) =~= Seq::<CandidateModel>::empty());
        }
        return gcands;
    }
    if gcands.len() == 1 {
        proof {
            assert(cands_view(gcands@) =~= seq![gc[0]]);
        }
        return gcands;
    }
    // find the winning area: the first rule present in the group
    let rn = rules.len();
    let mut i: usize = 0;
    let mut winner: Option<Area> = None;
    proof {
        assert(rules@.skip(0) =~= rules@);
    }
    while i < rn && winner.is_none()
        invariant
            i <= rn,
            rn == rules@.len(),
            gc == cands_view(gcands@),
            winner is None ==> spec_rules_area_winner(gc, rules@.skip(i as int))
                == spec_rules_area_winner(gc, rules@),
            winner matches Some(a) ==> spec_rules_area_winner(gc, rules@) == Some(a),
            winner matches Some(a) ==> exists|j: int| 0 <= j < gc.len() && gc[j].area == a,
        decreases rn - i + (if winner is None { 1int } else { 0int }),
    {
        proof {
            assert(rules@.skip(i as int).first() == rules@[i as int]);
            assert(rules@.skip(i as int).drop_first() =~= rules@.skip(i + 1));
        }
        if contains_area(&gcands, rules[i]) {
            proof {
                assert(spec_rules_area_winner(gc, rules@) == Some(rules@[i as int]));
            }
            winner = Some(rules[i]);
        } else {
            i += 1;
        }
    }
    proof {
        if winner is None {
            assert(rules@.skip(rn as int) =~= Seq::<Area>::empty());
        }
    }
    let aw = match winner {
        Some(a) => a,
        None => gcands[0].area,
    };
    proof {
        assert(aw == spec_area_winner(gc, rules@));
        broadcast use vstd::seq_lib::group_filter_ensures;

        let pred = |c: CandidateModel| c.area == aw;
        let j = if winner is Some {
            choose|j: int| 0 <= j < gc.len() && gc[j].area == aw
        } else {
            0
        };
        assert(0 <= j < gc.len() && pred(gc[j]));
        gc.lemma_filter_contains(pred, j);
        assert(gc.filter(pred).contains(gc[j]));
        assert(gc.filter(pred).len() > 0);
    }
    let wp = filter_by_area_tag(&gcands, aw);
    let ghost wm = cands_view(wp@);
    proof {
        assert(wm.len() > 0);
    }
    if wp.len() == 1 {
        proof {
            assert(cands_view(wp@) =~= seq![wm[0]]);
        }
        return wp;
    }
    // several candidates tie on the winning area: merge them
    let transcripts = join_transcripts(&wp);
    let numbers = join_numbers(&wp);
    let max_pregion = max_region_pct(&wp);
    let max_parea = max_area_pct(&wp);
    let merged = Candidate::new(
        wp[0].start,
        wp[0].end,
        wp[0].strand,
        numbers,
        wp[0].area,
        transcripts,
        wp[0].gene.clone(),
        wp[0].distance,
        max_pregion,
        max_parea,
        wp[0].tss_distance,
    );
    let mut out: Vec<Candidate> = Vec::new();
    out.push(merged);
    proof {
        assert(cands_view(out@) =~= spec_select_group(
            spec_positions_cands(
                cands_view(candidates@),
                positions@.map_values(|p: usize| p as int),
            ),
            rules@,
        ));
    }
    out
}

/// Select the best transcript per gene: one report per group, groups in
/// key order, exactly as [`spec_select_transcript`] defines.
pub fn select_transcript(
    candidates: &Vec<Candidate>,
    grouped_by: &Vec<(String, Vec<usize>)>,
    rules: &Vec<Area>,
) -> (r: Vec<Candidate>)
    requires
        distinct_keys(groups_view(grouped_by@)),
        positions_in_range(groups_view(grouped_by@), candidates@.len() as int),
    ensures
        cands_view(r@) == spec_select_transcript(
            cands_view(candidates@),
            groups_view(grouped_by@),
            rules@,
        ),
{
    let ghost cm = cands_view(candidates@);
    let ghost gm = groups_view(grouped_by@);
    let order = key_order(candidates, grouped_by, true);
    let ghost om = order@.map_values(|p: usize| p as int);
    let n = order.len();
    let mut out: Vec<Candidate> = Vec::new();
    let mut k: usize = 0;
    proof {
        assert(om.skip(0) =~= om);
        assert(cands_view(out@) =~= Seq::<CandidateModel>::empty());
        assert(Seq::<CandidateModel>::empty() + spec_select_for_order(cm, gm, om, rules@)
            =~= spec_select_for_order(cm, gm, om, rules@));
    }
    while k < n
        invariant
            k <= n,
            n == order@.len(),
            cm == cands_view(candidates@),
            gm == groups_view(grouped_by@),
            om == order@.map_values(|p: usize| p as int),
            positions_in_range(gm, candidates@.len() as int),
            forall|j: int| 0 <= j < order@.len() ==> order@[j] < grouped_by@.len(),
            cands_view(out@) + spec_select_for_order(cm, gm, om.skip(k as int), rules@)
                == spec_select_for_order(cm, gm, om, rules@),
        decreases n - k,
    {
        let g = order[k];
        proof {
            assert(om.skip(k as int).first() == om[k as int]);
            assert(om.skip(k as int).drop_first() =~= om.skip(k + 1));
            assert(gm[g as int].1 == grouped_by@[g as int].1@.map_values(|p: usize| p as int));
            assert forall|j: int|
                0 <= j < grouped_by@[g as int].1@.len() implies grouped_by@[g as int].1@[j]
                < candidates@.len() by {
                assert(gm[g as int].1[j] == grouped_by@[g as int].1@[j] as int);
            }
        }
        let picked = select_group(candidates, &grouped_by[g].1, rules);
        let ghost out0 = out@;
        let ghost wm = cands_view(picked@);
        let wn = picked.len();
        let mut w: usize = 0;
        let mut picked = picked;
        while w < wn
            invariant
                w <= wn,
                wn == picked@.len(),
                wm == cands_view(picked@),
                cands_view(out@) == cands_view(out0) + wm.take(w as int),
            decreases wn - w,
        {
            let ghost outb = out@;
            let c = picked[w].clone();
            out.push(c);
            proof {
                assert(cands_view(out@) =~= cands_view(outb).push(wm[w as int]));
                assert(cands_view(outb).push(wm[w as int]) =~= cands_view(out0) + wm.take(w + 1));
            }
            w += 1;
        }
        proof {
            assert(wm.take(wn as int) =~= wm);
            assert(cands_view(out@) =~= cands_view(out0) + wm);
            assert(cands_view(out@) + spec_select_for_order(cm, gm, om.skip(k + 1), rules@)
                =~= spec_select_for_order(cm, gm, om, rules@));
        }
        k += 1;
    }
    proof {
        assert(om.skip(n as int) =~= Seq::<int>::empty());
        assert(cands_view(out@) + Seq::<CandidateModel>::empty() =~= cands_view(out@));
    }
    out
}


// ---------- idempotence of the rule engine ----------

/// The group indices `lo`, `lo + 1`, ..., `hi - 1`.
pub open spec fn spec_index_range(lo: int, hi: int) -> Seq<int> {
    Seq::new((hi - lo) as nat, |i: int| lo + i)
}

/// Singleton regrouping of a candidate list by transcript: one group per
/// candidate, in order, keyed by its transcript id.
pub open spec fn spec_singleton_groups(cands: Seq<CandidateModel>) -> Seq<GroupModel> {
    Seq::new(cands.len(), |i: int| (cands[i].transcript, seq![i]))
}

proof fn lemma_fold_singleton(cands: Seq<CandidateModel>, k: int)
    requires
        forall|i: int, j: int| 0 <= i < j < cands.len() ==> cands[i].transcript != cands[j].transcript,
        0 <= k <= cands.len(),
    ensures
        spec_key_order_fold(
            spec_singleton_groups(cands),
            cands.skip(k),
            false,
            spec_index_range(0, k),
        ) == spec_index_range(0, cands.len() as int),
    decreases cands.len() - k,
{
    let groups = spec_singleton_groups(cands);
    let n = cands.len() as int;
    if k == n {
        assert(cands.skip(k).len() == 0);
        assert(spec_index_range(0, k) =~= spec_index_range(0, n));
    } else {
        let suffix = cands.skip(k);
        assert(suffix.first() == cands[k]);
        let key = spec_key_of(false, suffix.first());
        assert(key == cands[k].transcript);
        assert(groups[k].0 == key);
        assert(exists|g: int| 0 <= g < groups.len() && groups[g].0 == key);
        let gc = choose|g: int| 0 <= g < groups.len() && groups[g].0 == key;
        assert(groups[gc].0 == cands[gc].transcript);
        if gc != k {
            assert(cands[gc].transcript == cands[k].transcript);
            assert(false);
        }
        let acc = spec_index_range(0, k);
        assert(!acc.contains(k)) by {
            if acc.contains(k) {
                let w = choose|w: int| 0 <= w < acc.len() && acc[w] == k;
                assert(acc[w] == w);
            }
        }
        assert(acc.push(k) =~= spec_index_range(0, k + 1));
        assert(suffix.drop_first() =~= cands.skip(k + 1));
        lemma_fold_singleton(cands, k + 1);
    }
}

proof fn lemma_remaining_empty(groups: Seq<GroupModel>, present: Seq<int>, j: int)
    requires
        0 <= j <= groups.len(),
        forall|g: int| j <= g < groups.len() ==> present.contains(g),
    ensures
        spec_remaining_sorted(groups, present, j, Seq::empty()) == Seq::<int>::empty(),
    decreases groups.len() - j,
{
    if j < groups.len() {
        lemma_remaining_empty(groups, present, j + 1);
    }
}

proof fn lemma_results_singleton(
    cands: Seq<CandidateModel>,
    k: int,
    perc_region: Pct,
    perc_area: Pct,
    rules: Seq<Area>,
)
    requires
        0 <= k <= cands.len(),
    ensures
        spec_results_for_order(
            cands,
            spec_singleton_groups(cands),
            spec_index_range(k, cands.len() as int),
            perc_region,
            perc_area,
            rules,
        ) == cands.skip(k),
    decreases cands.len() - k,
{
    let groups = spec_singleton_groups(cands);
    let n = cands.len() as int;
    let order = spec_index_range(k, n);
    if k == n {
        assert(order.len() == 0);
        assert(cands.skip(k) =~= Seq::<CandidateModel>::empty());
    } else {
        assert(order.first() == k);
        assert(groups[k].1 =~= seq![k]);
        let gc = spec_positions_cands(cands, groups[k].1);
        assert(gc =~= seq![cands[k]]);
        assert(gc.len() == 1);
        assert(spec_group_winners(gc, perc_region, perc_area, rules) == gc);
        assert(order.drop_first() =~= spec_index_range(k + 1, n));
        lemma_results_singleton(cands, k + 1, perc_region, perc_area, rules);
        assert(seq![cands[k]] + cands.skip(k + 1) =~= cands.skip(k));
    }
}

/// Idempotence of the rule engine: when every group holds a single
/// winner, as after a run whose groups each produced one candidate,
/// re-running `apply_rules` on those winners, regrouped by transcript
/// with one candidate per group, returns them all unchanged.
pub proof fn lemma_apply_rules_idempotent(
    cands: Seq<CandidateModel>,
    perc_region: Pct,
    perc_area: Pct,
    rules: Seq<Area>,
)
    requires
        forall|i: int, j: int| 0 <= i < j < cands.len() ==> cands[i].transcript != cands[j].transcript,
    ensures
        spec_apply_rules(
            cands,
            spec_singleton_groups(cands),
            perc_region,
            perc_area,
            rules,
        ) == cands,
{
    let groups = spec_singleton_groups(cands);
    let n = cands.len() as int;
    assert(cands.skip(0) =~= cands);
    assert(spec_index_range(0, 0) =~= Seq::<int>::empty());
    lemma_fold_singleton(cands, 0);
    let first = spec_key_order_fold(groups, cands, false, Seq::empty());
    assert(first == spec_index_range(0, n));
    assert forall|g: int| 0 <= g < groups.len() implies first.contains(g) by {
        assert(first[g] == g);
    }
    lemma_remaining_empty(groups, first, 0);
    assert(spec_key_order(groups, cands, false) =~= spec_index_range(0, n));
    lemma_results_singleton(cands, 0, perc_region, perc_area, rules);
    assert(spec_apply_rules(cands, groups, perc_region, perc_area, rules) == cands.skip(0));
}

} // verus!
