//! Candidate resolution: the per-transcript selector and the per-gene
//! merger.
//!
//! `apply_rules` collapses each group of same-transcript candidates to the
//! best one(s) by thresholds, the caller's zone priority order, and a
//! maximal-coverage tie break.  `select_transcript` collapses each group of
//! same-gene candidates to a single row, merging the transcripts that tie
//! on the top-priority zone.

use vstd::prelude::*;
use crate::pct::{lemma_pct_le_total, lemma_pct_le_trans, Pct};
use crate::text::{lemma_join_push, lemma_lex_lt_irrefl, lemma_lex_lt_trans, lemma_lex_total, lex_lt, spec_join, str_eq, str_lt};
use crate::types::{Area, Candidate};
use vstd::string::StringExecFns;

verus! {

/// The members of one group: the candidates the group's indices pick out.
pub open spec fn spec_group_members(cands: Seq<Candidate>, idxs: Seq<usize>) -> Seq<Candidate> {
    idxs.map_values(|i: usize| cands[i as int])
}

/// Every index of every group is in bounds.
pub open spec fn spec_groups_ok(groups: Seq<Seq<usize>>, n: int) -> bool {
    forall|k: int, i: int|
        0 <= k < groups.len() && 0 <= i < groups[k].len() ==> #[trigger] groups[k][i] < n
}

/// The groups of a vector of index vectors, as ghost sequences.
pub open spec fn spec_groups_view(groups: Seq<Vec<usize>>) -> Seq<Seq<usize>> {
    groups.map_values(|v: Vec<usize>| v@)
}

/// Both percentages of every candidate are well formed.
pub open spec fn spec_cands_wf(cands: Seq<Candidate>) -> bool {
    forall|i: int|
        0 <= i < cands.len() ==> (#[trigger] cands[i]).pctg_region.well_formed()
            && cands[i].pctg_area.well_formed()
}

/// The position of `a` in the priority order, or `rules.len()` when `a`
/// does not appear: a smaller position is a higher priority.
pub open spec fn spec_rule_index(rules: Seq<Area>, a: Area) -> int
    decreases rules.len(),
{
    if rules.len() == 0 {
        0
    } else if rules[0] == a {
        0
    } else {
        1 + spec_rule_index(rules.skip(1), a)
    }
}

/// `spec_rule_index` stays in bounds, lands on `a` when `a` appears, and
/// equals the length exactly when `a` does not appear.
pub proof fn lemma_rule_index_props(rules: Seq<Area>, a: Area)
    ensures
        0 <= spec_rule_index(rules, a) <= rules.len(),
        rules.contains(a) <==> spec_rule_index(rules, a) < rules.len(),
        spec_rule_index(rules, a) < rules.len() ==> rules[spec_rule_index(rules, a)] == a,
        forall|j: int| 0 <= j < spec_rule_index(rules, a) ==> rules[j] != a,
    decreases rules.len(),
{
    if rules.len() > 0 && rules[0] != a {
        lemma_rule_index_props(rules.skip(1), a);
        assert(rules.contains(a) ==> rules.skip(1).contains(a)) by {
            if rules.contains(a) {
                let w = choose|w: int| 0 <= w < rules.len() && rules[w] == a;
                assert(rules.skip(1)[w - 1] == a);
            }
        }
        assert forall|j: int| 0 <= j < spec_rule_index(rules, a) implies rules[j] != a by {
            if j > 0 {
                assert(rules.skip(1)[j - 1] == rules[j]);
            }
        }
        if rules.skip(1).contains(a) {
            let w = choose|w: int| 0 <= w < rules.skip(1).len() && rules.skip(1)[w] == a;
            assert(rules[w + 1] == a);
        }
        assert(spec_rule_index(rules, a) < rules.len() ==> rules[spec_rule_index(rules, a)]
            == a) by {
            let i = spec_rule_index(rules.skip(1), a);
            if i < rules.skip(1).len() {
                assert(rules.skip(1)[i] == rules[i + 1]);
            }
        }
    }
}

/// The position of `a` in the priority order, or `rules.len()` when `a`
/// does not appear.
pub fn rule_index(rules: &Vec<Area>, a: Area) -> (r: usize)
    ensures
        r == spec_rule_index(rules@, a),
{
    let n = rules.len();
    let mut i: usize = 0;
    proof {
        assert(rules@.skip(0) =~= rules@);
    }
    while i < n
        invariant
            0 <= i <= n,
            n == rules@.len(),
            spec_rule_index(rules@, a) == i + spec_rule_index(rules@.skip(i as int), a),
        decreases n - i,
    {
        if rules[i] == a {
            proof {
                assert(rules@.skip(i as int)[0] == a);
            }
            return i;
        }
        proof {
            assert(rules@.skip(i as int)[0] == rules@[i as int]);
            assert(rules@.skip(i as int).skip(1) =~= rules@.skip(i as int + 1));
        }
        i += 1;
    }
    proof {
        assert(rules@.skip(n as int).len() == 0);
    }
    n
}

/// The highest priority (smallest rule position) among the group's zones;
/// `rules.len()` when no zone of the group appears in the order.
pub open spec fn spec_best_priority(g: Seq<Candidate>, rules: Seq<Area>) -> int
    decreases g.len(),
{
    if g.len() == 0 {
        rules.len() as int
    } else {
        vstd::math::min(
            spec_best_priority(g.drop_last(), rules),
            spec_rule_index(rules, g.last().area),
        )
    }
}

/// The best priority is attained by some member (when it beats the
/// out-of-order sentinel) and bounds every member's priority.
pub proof fn lemma_best_priority_props(g: Seq<Candidate>, rules: Seq<Area>)
    ensures
        spec_best_priority(g, rules) <= rules.len(),
        forall|i: int|
            0 <= i < g.len() ==> spec_best_priority(g, rules) <= spec_rule_index(
                rules,
                (#[trigger] g[i]).area,
            ),
        spec_best_priority(g, rules) < rules.len() ==> exists|i: int|
            0 <= i < g.len() && spec_rule_index(rules, (#[trigger] g[i]).area)
                == spec_best_priority(g, rules),
    decreases g.len(),
{
    if g.len() > 0 {
        lemma_best_priority_props(g.drop_last(), rules);
        lemma_rule_index_props(rules, g.last().area);
        assert forall|i: int|
            0 <= i < g.len() implies spec_best_priority(g, rules) <= spec_rule_index(
            rules,
            (#[trigger] g[i]).area,
        ) by {
            if i < g.len() - 1 {
                assert(g.drop_last()[i] == g[i]);
            }
        }
        if spec_best_priority(g, rules) < rules.len() {
            let bp = spec_best_priority(g, rules);
            if spec_rule_index(rules, g.last().area) == bp {
                assert(g[g.len() - 1] == g.last());
            } else {
                let w = choose|i: int|
                    0 <= i < g.drop_last().len() && spec_rule_index(
                        rules,
                        g.drop_last()[i].area,
                    ) == bp;
                assert(g[w] == g.drop_last()[w]);
            }
        }
    }
}

/// The best priority of the group's zones.
fn best_priority(g: &Vec<Candidate>, rules: &Vec<Area>) -> (r: usize)
    ensures
        r == spec_best_priority(g@, rules@),
{
    let n = g.len();
    let mut best = rules.len();
    let mut i: usize = 0;
    while i < n
        invariant
            0 <= i <= n,
            n == g@.len(),
            best == spec_best_priority(g@.take(i as int), rules@),
            best <= rules@.len(),
        decreases n - i,
    {
        let p = rule_index(rules, g[i].area);
        proof {
            lemma_rule_index_props(rules@, g@[i as int].area);
            assert(g@.take(i as int + 1).drop_last() =~= g@.take(i as int));
            assert(g@.take(i as int + 1).last() == g@[i as int]);
        }
        if p < best {
            best = p;
        }
        i += 1;
    }
    proof {
        assert(g@.take(n as int) =~= g@);
    }
    best
}

/// Whether the candidate passes the region-coverage threshold.
pub open spec fn spec_pass_region(c: Candidate, pr: Pct) -> bool {
    pr.spec_le(c.pctg_region)
}

/// Whether the candidate passes the area-coverage threshold; the sentinel
/// is exempt.
pub open spec fn spec_pass_area(c: Candidate, pa: Pct) -> bool {
    c.pctg_area == Pct::NotApplicable || pa.spec_le(c.pctg_area)
}

/// One group, resolved: a sole candidate survives unconditionally;
/// otherwise the region and area thresholds filter the group, each filter
/// falling back to its whole input when it would empty the group; zones
/// outside the priority order are dropped (emptying the group for good if
/// none is left); the best-priority zone is kept; and of those the
/// candidates with maximal region coverage survive, ties included.
pub open spec fn spec_select_group(
    g: Seq<Candidate>,
    pr: Pct,
    pa: Pct,
    rules: Seq<Area>,
) -> Seq<Candidate> {
    if g.len() == 1 {
        g
    } else {
        let f1 = g.filter(|c: Candidate| spec_pass_region(c, pr));
        let s1 = if f1.len() == 0 {
            g
        } else {
            f1
        };
        let f2 = s1.filter(|c: Candidate| spec_pass_area(c, pa));
        let s2 = if f2.len() == 0 {
            s1
        } else {
            f2
        };
        let f3 = s2.filter(|c: Candidate| rules.contains(c.area));
        if f3.len() == 0 {
            Seq::empty()
        } else {
            let best = spec_best_priority(f3, rules);
            let f4 = f3.filter(|c: Candidate| spec_rule_index(rules, c.area) == best);
            f4.filter(|c: Candidate| spec_is_max_region(c, f4))
        }
    }
}

/// Whether the candidate's region coverage is maximal within the group.
pub open spec fn spec_is_max_region(c: Candidate, g: Seq<Candidate>) -> bool {
    forall|i: int| 0 <= i < g.len() ==> (#[trigger] g[i]).pctg_region.spec_le(c.pctg_region)
}

/// All groups, resolved and concatenated in group order.
pub open spec fn spec_apply_rules(
    cands: Seq<Candidate>,
    groups: Seq<Seq<usize>>,
    pr: Pct,
    pa: Pct,
    rules: Seq<Area>,
) -> Seq<Candidate>
    decreases groups.len(),
{
    if groups.len() == 0 {
        Seq::empty()
    } else {
        spec_apply_rules(cands, groups.drop_last(), pr, pa, rules) + spec_select_group(
            spec_group_members(cands, groups.last()),
            pr,
            pa,
            rules,
        )
    }
}

/// Filtering a pushed element appends it exactly when it passes.
proof fn lemma_filter_push<A>(s: Seq<A>, x: A, pred: spec_fn(A) -> bool)
    ensures
        (s.push(x)).filter(pred) == if pred(x) {
            s.filter(pred).push(x)
        } else {
            s.filter(pred)
        },
{
    reveal(Seq::filter);
    assert(s.push(x).drop_last() =~= s);
    assert(s.push(x).last() == x);
}

/// Filtering keeps candidates of the input, so well-formed percentages
/// survive it.
proof fn lemma_filter_preserves_wf(s: Seq<Candidate>, pred: spec_fn(Candidate) -> bool)
    requires
        spec_cands_wf(s),
    ensures
        spec_cands_wf(s.filter(pred)),
{
    let f = s.filter(pred);
    assert forall|i: int|
        0 <= i < f.len() implies (#[trigger] f[i]).pctg_region.well_formed()
        && f[i].pctg_area.well_formed() by {
        assert(f.contains(f[i]));
        s.lemma_filter_contains_rev(pred, f[i]);
        let j = choose|j: int| 0 <= j < s.len() && s[j] == f[i];
        assert(s[j].pctg_region.well_formed());
    }
}

/// The members of one group, cloned out of the candidate list.
fn collect_members(cands: &Vec<Candidate>, idxs: &Vec<usize>) -> (r: Vec<Candidate>)
    requires
        forall|i: int| 0 <= i < idxs@.len() ==> (#[trigger] idxs@[i]) < cands@.len(),
    ensures
        r@ == spec_group_members(cands@, idxs@),
{
    let mut r: Vec<Candidate> = Vec::new();
    let mut i: usize = 0;
    while i < idxs.len()
        invariant
            0 <= i <= idxs@.len(),
            forall|j: int| 0 <= j < idxs@.len() ==> (#[trigger] idxs@[j]) < cands@.len(),
            r@ == spec_group_members(cands@, idxs@.take(i as int)),
        decreases idxs@.len() - i,
    {
        r.push(cands[idxs[i]].clone());
        proof {
            assert(spec_group_members(cands@, idxs@.take(i as int + 1)) =~= spec_group_members(
                cands@,
                idxs@.take(i as int),
            ).push(cands@[idxs@[i as int] as int]));
        }
        i += 1;
    }
    proof {
        assert(idxs@.take(idxs@.len() as int) =~= idxs@);
    }
    r
}

/// The candidates passing the region threshold, in order.
fn filter_region(g: &Vec<Candidate>, pr: &Pct) -> (r: Vec<Candidate>)
    ensures
        r@ == g@.filter(|c: Candidate| spec_pass_region(c, *pr)),
{
    let ghost pred = |c: Candidate| spec_pass_region(c, *pr);
    let mut r: Vec<Candidate> = Vec::new();
    let mut i: usize = 0;
    proof {
        reveal(Seq::filter);
    }
    while i < g.len()
        invariant
            0 <= i <= g@.len(),
            pred == (|c: Candidate| spec_pass_region(c, *pr)),
            r@ == g@.take(i as int).filter(pred),
        decreases g@.len() - i,
    {
        proof {
            assert(g@.take(i as int + 1).drop_last() =~= g@.take(i as int));
            lemma_filter_push(g@.take(i as int), g@[i as int], pred);
            assert(g@.take(i as int + 1) =~= g@.take(i as int).push(g@[i as int]));
        }
        if g[i].pctg_region.ge(pr) {
            r.push(g[i].clone());
        }
        i += 1;
    }
    proof {
        assert(g@.take(g@.len() as int) =~= g@);
    }
    r
}

/// The candidates passing the area threshold (sentinel exempt), in order.
fn filter_area(g: &Vec<Candidate>, pa: &Pct) -> (r: Vec<Candidate>)
    ensures
        r@ == g@.filter(|c: Candidate| spec_pass_area(c, *pa)),
{
    let ghost pred = |c: Candidate| spec_pass_area(c, *pa);
    let mut r: Vec<Candidate> = Vec::new();
    let mut i: usize = 0;
    while i < g.len()
        invariant
            0 <= i <= g@.len(),
            pred == (|c: Candidate| spec_pass_area(c, *pa)),
            r@ == g@.take(i as int).filter(pred),
        decreases g@.len() - i,
    {
        proof {
            lemma_filter_push(g@.take(i as int), g@[i as int], pred);
            assert(g@.take(i as int + 1) =~= g@.take(i as int).push(g@[i as int]));
        }
        if g[i].pctg_area.is_not_applicable() || g[i].pctg_area.ge(pa) {
            r.push(g[i].clone());
        }
        i += 1;
    }
    proof {
        assert(g@.take(g@.len() as int) =~= g@);
    }
    r
}

/// The candidates whose zone appears in the priority order, in order.
fn filter_in_rules(g: &Vec<Candidate>, rules: &Vec<Area>) -> (r: Vec<Candidate>)
    ensures
        r@ == g@.filter(|c: Candidate| rules@.contains(c.area)),
{
    let ghost pred = |c: Candidate| rules@.contains(c.area);
    let mut r: Vec<Candidate> = Vec::new();
    let mut i: usize = 0;
    while i < g.len()
        invariant
            0 <= i <= g@.len(),
            pred == (|c: Candidate| rules@.contains(c.area)),
            r@ == g@.take(i as int).filter(pred),
        decreases g@.len() - i,
    {
        proof {
            lemma_filter_push(g@.take(i as int), g@[i as int], pred);
            assert(g@.take(i as int + 1) =~= g@.take(i as int).push(g@[i as int]));
            lemma_rule_index_props(rules@, g@[i as int].area);
        }
        let p = rule_index(rules, g[i].area);
        if p < rules.len() {
            r.push(g[i].clone());
        }
        i += 1;
    }
    proof {
        assert(g@.take(g@.len() as int) =~= g@);
    }
    r
}

/// The candidates whose zone sits at priority position `best`, in order.
fn filter_priority(g: &Vec<Candidate>, rules: &Vec<Area>, best: usize) -> (r: Vec<Candidate>)
    ensures
        r@ == g@.filter(|c: Candidate| spec_rule_index(rules@, c.area) == best as int),
{
    let ghost pred = |c: Candidate| spec_rule_index(rules@, c.area) == best as int;
    let mut r: Vec<Candidate> = Vec::new();
    let mut i: usize = 0;
    while i < g.len()
        invariant
            0 <= i <= g@.len(),
            pred == (|c: Candidate| spec_rule_index(rules@, c.area) == best as int),
            r@ == g@.take(i as int).filter(pred),
        decreases g@.len() - i,
    {
        proof {
            lemma_filter_push(g@.take(i as int), g@[i as int], pred);
            assert(g@.take(i as int + 1) =~= g@.take(i as int).push(g@[i as int]));
        }
        let p = rule_index(rules, g[i].area);
        if p == best {
            r.push(g[i].clone());
        }
        i += 1;
    }
    proof {
        assert(g@.take(g@.len() as int) =~= g@);
    }
    r
}

/// Resolves one group of candidates.
fn select_group(g: Vec<Candidate>, pr: &Pct, pa: &Pct, rules: &Vec<Area>) -> (r: Vec<Candidate>)
    requires
        spec_cands_wf(g@),
    ensures
        r@ == spec_select_group(g@, *pr, *pa, rules@),
        spec_cands_wf(r@),
{
    if g.len() == 1 {
        return g;
    }
    let f1 = filter_region(&g, pr);
    let s1 = if f1.len() == 0 {
        g
    } else {
        f1
    };
    let f2 = filter_area(&s1, pa);
    let s2 = if f2.len() == 0 {
        s1
    } else {
        f2
    };
    let f3 = filter_in_rules(&s2, rules);
    if f3.len() == 0 {
        return Vec::new();
    }
    proof {
        lemma_filter_preserves_wf(g@, |c: Candidate| spec_pass_region(c, *pr));
        assert(spec_cands_wf(s1@));
        lemma_filter_preserves_wf(s1@, |c: Candidate| spec_pass_area(c, *pa));
        assert(spec_cands_wf(s2@));
        lemma_filter_preserves_wf(s2@, |c: Candidate| rules@.contains(c.area));
        assert(spec_cands_wf(f3@));
    }
    let best = best_priority(&f3, rules);
    let f4 = filter_priority(&f3, rules, best);
    proof {
        lemma_filter_preserves_wf(f3@, |c: Candidate| spec_rule_index(rules@, c.area) == best as int);
        assert(spec_cands_wf(f4@));
        assert(f4@.len() > 0) by {
            lemma_best_priority_props(f3@, rules@);
            lemma_rule_index_props(rules@, f3@[0].area);
            let pred = |c: Candidate| rules@.contains(c.area);
            assert(f3@ == s2@.filter(pred));
            assert(f3@.len() > 0);
            assert(pred(f3@[0])) by {
                s2@.lemma_filter_pred(pred, 0);
            }
            assert(spec_best_priority(f3@, rules@) < rules@.len());
            let w = choose|i: int|
                0 <= i < f3@.len() && spec_rule_index(rules@, (#[trigger] f3@[i]).area)
                    == spec_best_priority(f3@, rules@);
            let pred4 = |c: Candidate| spec_rule_index(rules@, c.area) == best as int;
            f3@.lemma_filter_contains(pred4, w);
        }
    }
    // Keep the candidates whose region coverage ties the maximum.
    let mut best_pct: Pct = f4[0].pctg_region;
    let mut i: usize = 1;
    while i < f4.len()
        invariant
            1 <= i <= f4@.len(),
            f4@.len() > 0,
            spec_cands_wf(f4@),
            exists|j: int| 0 <= j < i && best_pct == (#[trigger] f4@[j]).pctg_region,
            forall|j: int| 0 <= j < i ==> (#[trigger] f4@[j]).pctg_region.spec_le(best_pct),
        decreases f4@.len() - i,
    {
        let ghost prev = best_pct;
        let take_new = best_pct.le(&f4[i].pctg_region);
        if take_new {
            best_pct = f4[i].pctg_region;
        }
        proof {
            if take_new {
                assert forall|j: int|
                    0 <= j < i + 1 implies (#[trigger] f4@[j]).pctg_region.spec_le(best_pct) by {
                    if j < i {
                        lemma_pct_le_trans(f4@[j].pctg_region, prev, best_pct);
                    }
                }
            } else {
                lemma_pct_le_total(prev, f4@[i as int].pctg_region);
            }
        }
        i += 1;
    }
    proof {
        // A candidate is maximal exactly when it reaches the computed best.
        assert forall|c: Candidate| f4@.contains(c) implies (spec_is_max_region(c, f4@)
            == best_pct.spec_le(c.pctg_region)) by {
            let w = choose|w: int| 0 <= w < f4@.len() && best_pct == (#[trigger] f4@[w]).pctg_region;
            if spec_is_max_region(c, f4@) {
                assert(f4@[w].pctg_region.spec_le(c.pctg_region));
            }
            if best_pct.spec_le(c.pctg_region) {
                let ci = choose|ci: int| 0 <= ci < f4@.len() && f4@[ci] == c;
                assert forall|j: int|
                    0 <= j < f4@.len() implies (#[trigger] f4@[j]).pctg_region.spec_le(
                    c.pctg_region,
                ) by {
                    lemma_pct_le_trans(f4@[j].pctg_region, best_pct, c.pctg_region);
                }
            }
        }
    }
    let ghost predmax = |c: Candidate| spec_is_max_region(c, f4@);
    let mut r: Vec<Candidate> = Vec::new();
    let mut i: usize = 0;
    while i < f4.len()
        invariant
            0 <= i <= f4@.len(),
            spec_cands_wf(f4@),
            predmax == (|c: Candidate| spec_is_max_region(c, f4@)),
            forall|c: Candidate|
                f4@.contains(c) ==> (spec_is_max_region(c, f4@) == best_pct.spec_le(
                    (#[trigger] c.pctg_region),
                )),
            r@ == f4@.take(i as int).filter(predmax),
        decreases f4@.len() - i,
    {
        proof {
            lemma_filter_push(f4@.take(i as int), f4@[i as int], predmax);
            assert(f4@.take(i as int + 1) =~= f4@.take(i as int).push(f4@[i as int]));
            assert(f4@.contains(f4@[i as int]));
        }
        if f4[i].pctg_region.ge(&best_pct) {
            r.push(f4[i].clone());
        }
        i += 1;
    }
    proof {
        assert(f4@.take(f4@.len() as int) =~= f4@);
        lemma_filter_preserves_wf(f4@, predmax);
    }
    r
}

/// Resolves every group of same-transcript candidates to the best
/// candidate(s), as `spec_select_group` describes, and concatenates the
/// results in group order.
pub fn apply_rules(
    candidates: &Vec<Candidate>,
    groups: &Vec<Vec<usize>>,
    perc_region: &Pct,
    perc_area: &Pct,
    rules: &Vec<Area>,
) -> (r: Vec<Candidate>)
    requires
        spec_groups_ok(spec_groups_view(groups@), candidates@.len() as int),
        spec_cands_wf(candidates@),
    ensures
        r@ == spec_apply_rules(
            candidates@,
            spec_groups_view(groups@),
            *perc_region,
            *perc_area,
            rules@,
        ),
        spec_cands_wf(r@),
{
    let ghost gs = spec_groups_view(groups@);
    let mut r: Vec<Candidate> = Vec::new();
    let mut k: usize = 0;
    while k < groups.len()
        invariant
            0 <= k <= groups@.len(),
            gs == spec_groups_view(groups@),
            gs.len() == groups@.len(),
            spec_groups_ok(gs, candidates@.len() as int),
            spec_cands_wf(candidates@),
            r@ == spec_apply_rules(candidates@, gs.take(k as int), *perc_region, *perc_area, rules@),
            spec_cands_wf(r@),
        decreases groups@.len() - k,
    {
        proof {
            assert(gs[k as int] == groups@[k as int]@);
        }
        let members = collect_members(candidates, &groups[k]);
        proof {
            assert(spec_cands_wf(members@)) by {
                assert forall|i: int|
                    0 <= i < members@.len() implies (#[trigger] members@[i]).pctg_region.well_formed()
                    && members@[i].pctg_area.well_formed() by {
                    assert(members@[i] == candidates@[groups@[k as int]@[i] as int]);
                }
            }
        }
        let ghost r_before = r@;
        let mut picked = select_group(members, perc_region, perc_area, rules);
        let ghost pk = picked@;
        r.append(&mut picked);
        proof {
            assert(gs.take(k as int + 1).drop_last() =~= gs.take(k as int));
            assert(gs.take(k as int + 1).last() == gs[k as int]);
            assert forall|i: int|
                0 <= i < r@.len() implies (#[trigger] r@[i]).pctg_region.well_formed()
                && r@[i].pctg_area.well_formed() by {
                if i < r_before.len() {
                    assert(r@[i] == r_before[i]);
                } else {
                    assert(r@[i] == pk[i - r_before.len()]);
                }
            }
        }
        k += 1;
    }
    proof {
        assert(gs.take(gs.len() as int) =~= gs);
    }
    r
}

/// A strictly ascending label list: sorted and duplicate-free.
pub open spec fn spec_sorted_unique(ls: Seq<Seq<char>>) -> bool {
    forall|i: int, j: int| 0 <= i < j < ls.len() ==> lex_lt(#[trigger] ls[i], #[trigger] ls[j])
}

/// The transcript identifiers of the candidates, as a set.
pub open spec fn spec_transcript_set(g: Seq<Candidate>) -> Set<Seq<char>> {
    g.map_values(|c: Candidate| c.transcript@).to_set()
}

/// The exon index labels of the candidates, as a set.
pub open spec fn spec_exon_label_set(g: Seq<Candidate>) -> Set<Seq<char>> {
    g.map_values(|c: Candidate| c.exon_number@).to_set()
}

/// `label` spells out exactly the label set: the set's members in strictly
/// ascending order, joined with commas.  The uniqueness of that spelling is
/// `lemma_sorted_unique_canonical`.
pub open spec fn spec_merged_label(
    ls: Seq<Seq<char>>,
    set: Set<Seq<char>>,
    label: Seq<char>,
) -> bool {
    spec_sorted_unique(ls) && ls.to_set() == set && label == spec_join(ls, ',')
}

/// The largest value among the percentages; on a value tie the later one.
pub open spec fn spec_max_pct(ps: Seq<Pct>) -> Pct
    recommends
        ps.len() > 0,
    decreases ps.len(),
{
    if ps.len() <= 1 {
        ps[0]
    } else {
        let m = spec_max_pct(ps.drop_last());
        if m.spec_le(ps.last()) {
            ps.last()
        } else {
            m
        }
    }
}

/// One resolved gene row.  When none of the group's zones appears in the
/// priority order, the row is the group's first candidate, unchanged.
/// Otherwise the members tied on the best-priority zone are merged: the
/// transcript identifiers and exon labels are unioned into canonical
/// comma-joined lists, both percentages become the maximum across the tied
/// set, and the remaining fields are copied from the first tied member.
pub open spec fn spec_gene_row_members(g: Seq<Candidate>, rules: Seq<Area>, out: Candidate) -> bool {
    let best = spec_best_priority(g, rules);
    if best == rules.len() {
        out == g[0]
    } else {
        let tied = g.filter(|c: Candidate| spec_rule_index(rules, c.area) == best);
        &&& out.area == tied[0].area
        &&& out.gene == tied[0].gene
        &&& out.strand == tied[0].strand
        &&& out.start == tied[0].start
        &&& out.end == tied[0].end
        &&& out.distance == tied[0].distance
        &&& out.tss_distance == tied[0].tss_distance
        &&& out.pctg_region == spec_max_pct(tied.map_values(|c: Candidate| c.pctg_region))
        &&& out.pctg_area == spec_max_pct(tied.map_values(|c: Candidate| c.pctg_area))
        &&& exists|ls: Seq<Seq<char>>|
            #[trigger] spec_merged_label(ls, spec_transcript_set(tied), out.transcript@)
        &&& exists|ls: Seq<Seq<char>>|
            #[trigger] spec_merged_label(ls, spec_exon_label_set(tied), out.exon_number@)
    }
}

pub open spec fn spec_gene_row(
    cands: Seq<Candidate>,
    idxs: Seq<usize>,
    rules: Seq<Area>,
    out: Candidate,
) -> bool {
    spec_gene_row_members(spec_group_members(cands, idxs), rules, out)
}

/// Inserting into a sequence inserts into its set of elements.
proof fn lemma_insert_to_set(s: Seq<Seq<char>>, p: int, x: Seq<char>)
    requires
        0 <= p <= s.len(),
    ensures
        s.insert(p, x).to_set() == s.to_set().insert(x),
{
    let t = s.insert(p, x);
    assert forall|e: Seq<char>| t.to_set().contains(e) implies s.to_set().insert(x).contains(
        e,
    ) by {
        let i = choose|i: int| 0 <= i < t.len() && t[i] == e;
        if i < p {
            assert(s[i] == e);
        } else if i > p {
            assert(s[i - 1] == e);
        }
    }
    assert forall|e: Seq<char>| s.to_set().insert(x).contains(e) implies t.to_set().contains(
        e,
    ) by {
        if e == x {
            assert(t[p] == e);
        } else {
            let i = choose|i: int| 0 <= i < s.len() && s[i] == e;
            if i < p {
                assert(t[i] == e);
            } else {
                assert(t[i + 1] == e);
            }
        }
    }
    assert(t.to_set() =~= s.to_set().insert(x));
}

/// Inserts a label into a strictly ascending list, keeping it strictly
/// ascending; a label already present is not inserted twice.
fn insert_label(v: &mut Vec<String>, s: &String)
    requires
        spec_sorted_unique(old(v)@.map_values(|p: String| p@)),
    ensures
        spec_sorted_unique(final(v)@.map_values(|p: String| p@)),
        final(v)@.map_values(|p: String| p@).to_set() == old(v)@.map_values(
            |p: String| p@,
        ).to_set().insert(s@),
{
    let ghost views = v@.map_values(|p: String| p@);
    let mut p: usize = 0;
    while p < v.len() && str_lt(v[p].as_str(), s.as_str())
        invariant
            0 <= p <= v@.len(),
            views == v@.map_values(|q: String| q@),
            spec_sorted_unique(views),
            forall|i: int| 0 <= i < p ==> lex_lt(#[trigger] views[i], s@),
        decreases v@.len() - p,
    {
        p += 1;
    }
    if p < v.len() && str_eq(v[p].as_str(), s.as_str()) {
        proof {
            assert(views[p as int] == s@);
            assert(views.to_set().contains(s@));
            assert(views.to_set() =~= views.to_set().insert(s@));
        }
        return ;
    }
    proof {
        // Everything at or past the insertion point sits strictly above the
        // new label.
        if p < v@.len() {
            assert(!lex_lt(views[p as int], s@));
            assert(views[p as int] != s@);
            lemma_lex_total(views[p as int], s@);
        }
        assert forall|i: int| p <= i < views.len() implies lex_lt(s@, #[trigger] views[i]) by {
            if i > p {
                assert(lex_lt(views[p as int], views[i]));
                lemma_lex_lt_trans(s@, views[p as int], views[i]);
            }
        }
    }
    v.insert(p, s.clone());
    proof {
        let new_views = v@.map_values(|q: String| q@);
        assert(new_views =~= views.insert(p as int, s@));
        lemma_insert_to_set(views, p as int, s@);
        assert forall|i: int, j: int|
            0 <= i < j < new_views.len() implies lex_lt(
            #[trigger] new_views[i],
            #[trigger] new_views[j],
        ) by {
            let pi = p as int;
            if i < pi && j == pi {
            } else if i == pi && j > pi {
            } else if i < pi && j > pi {
                assert(new_views[i] == views[i]);
                assert(new_views[j] == views[j - 1]);
                assert(lex_lt(views[i], s@));
                if j - 1 == pi - 1 + 1 {
                }
            }
        }
    }
}

/// Joins the labels with commas.
fn join_commas(v: &Vec<String>) -> (r: String)
    ensures
        r@ == spec_join(v@.map_values(|p: String| p@), ','),
{
    let mut out = String::new();
    let mut i: usize = 0;
    while i < v.len()
        invariant
            0 <= i <= v@.len(),
            out@ == spec_join(v@.map_values(|p: String| p@).take(i as int), ','),
        decreases v@.len() - i,
    {
        let ghost views = v@.map_values(|p: String| p@);
        if i > 0 {
            out.append(",");
        }
        out.append(v[i].as_str());
        proof {
            reveal_strlit(",");
            lemma_join_push(views.take(i as int), views[i as int], ',');
            assert(views.take(i as int + 1) =~= views.take(i as int).push(views[i as int]));
            if i == 0 {
                assert(out@ =~= spec_join(views.take(1), ','));
            } else {
                assert(out@ =~= spec_join(views.take(i as int), ',') + seq![','] + views[
                    i as int
                ]);
            }
        }
        i += 1;
    }
    proof {
        assert(v@.map_values(|p: String| p@).take(v@.len() as int) =~= v@.map_values(
            |p: String| p@,
        ));
    }
    out
}

/// Merges the candidates tied on the best-priority zone into one row.
fn merge_tied(tied: &Vec<Candidate>) -> (out: Candidate)
    requires
        tied@.len() >= 1,
        spec_cands_wf(tied@),
    ensures
        out.area == tied@[0].area,
        out.gene == tied@[0].gene,
        out.strand == tied@[0].strand,
        out.start == tied@[0].start,
        out.end == tied@[0].end,
        out.distance == tied@[0].distance,
        out.tss_distance == tied@[0].tss_distance,
        out.pctg_region == spec_max_pct(tied@.map_values(|c: Candidate| c.pctg_region)),
        out.pctg_area == spec_max_pct(tied@.map_values(|c: Candidate| c.pctg_area)),
        exists|ls: Seq<Seq<char>>|
            #[trigger] spec_merged_label(ls, spec_transcript_set(tied@), out.transcript@),
        exists|ls: Seq<Seq<char>>|
            #[trigger] spec_merged_label(ls, spec_exon_label_set(tied@), out.exon_number@),
{
    let n = tied.len();
    let ghost regions = tied@.map_values(|c: Candidate| c.pctg_region);
    let ghost areas = tied@.map_values(|c: Candidate| c.pctg_area);
    let mut max_region: Pct = tied[0].pctg_region;
    let mut max_area: Pct = tied[0].pctg_area;
    let mut i: usize = 1;
    while i < n
        invariant
            1 <= i <= n,
            n == tied@.len(),
            regions == tied@.map_values(|c: Candidate| c.pctg_region),
            areas == tied@.map_values(|c: Candidate| c.pctg_area),
            max_region == spec_max_pct(regions.take(i as int)),
            max_area == spec_max_pct(areas.take(i as int)),
        decreases n - i,
    {
        proof {
            assert(regions.take(i as int + 1).drop_last() =~= regions.take(i as int));
            assert(regions.take(i as int + 1).last() == regions[i as int]);
            assert(areas.take(i as int + 1).drop_last() =~= areas.take(i as int));
            assert(areas.take(i as int + 1).last() == areas[i as int]);
        }
        if max_region.le(&tied[i].pctg_region) {
            max_region = tied[i].pctg_region;
        }
        if max_area.le(&tied[i].pctg_area) {
            max_area = tied[i].pctg_area;
        }
        i += 1;
    }
    proof {
        assert(regions.take(n as int) =~= regions);
        assert(areas.take(n as int) =~= areas);
    }
    // Union the transcript identifiers and exon labels, in canonical order.
    let mut t_labels: Vec<String> = Vec::new();
    let mut e_labels: Vec<String> = Vec::new();
    let mut i: usize = 0;
    while i < n
        invariant
            0 <= i <= n,
            n == tied@.len(),
            spec_sorted_unique(t_labels@.map_values(|p: String| p@)),
            spec_sorted_unique(e_labels@.map_values(|p: String| p@)),
            t_labels@.map_values(|p: String| p@).to_set() == spec_transcript_set(
                tied@.take(i as int),
            ),
            e_labels@.map_values(|p: String| p@).to_set() == spec_exon_label_set(
                tied@.take(i as int),
            ),
        decreases n - i,
    {
        proof {
            let prefix = tied@.take(i as int);
            let next = tied@.take(i as int + 1);
            assert(next.map_values(|c: Candidate| c.transcript@) =~= prefix.map_values(
                |c: Candidate| c.transcript@,
            ).push(tied@[i as int].transcript@));
            assert(next.map_values(|c: Candidate| c.exon_number@) =~= prefix.map_values(
                |c: Candidate| c.exon_number@,
            ).push(tied@[i as int].exon_number@));
            lemma_push_to_set(
                prefix.map_values(|c: Candidate| c.transcript@),
                tied@[i as int].transcript@,
            );
            lemma_push_to_set(
                prefix.map_values(|c: Candidate| c.exon_number@),
                tied@[i as int].exon_number@,
            );
        }
        insert_label(&mut t_labels, &tied[i].transcript);
        insert_label(&mut e_labels, &tied[i].exon_number);
        i += 1;
    }
    proof {
        assert(tied@.take(n as int) =~= tied@);
    }
    let transcript = join_commas(&t_labels);
    let exon_number = join_commas(&e_labels);
    let ghost tls = t_labels@.map_values(|p: String| p@);
    let ghost els = e_labels@.map_values(|p: String| p@);
    let first = &tied[0];
    let out = Candidate {
        start: first.start,
        end: first.end,
        strand: first.strand,
        exon_number,
        area: first.area,
        transcript,
        gene: first.gene.clone(),
        distance: first.distance,
        pctg_region: max_region,
        pctg_area: max_area,
        tss_distance: first.tss_distance,
    };
    proof {
        assert(out.transcript@ == spec_join(tls, ','));
        assert(out.exon_number@ == spec_join(els, ','));
        assert(spec_merged_label(tls, spec_transcript_set(tied@), out.transcript@));
        assert(spec_merged_label(els, spec_exon_label_set(tied@), out.exon_number@));
    }
    out
}

/// Pushing onto a sequence inserts into its set of elements.
proof fn lemma_push_to_set(s: Seq<Seq<char>>, x: Seq<char>)
    ensures
        s.push(x).to_set() == s.to_set().insert(x),
{
    let t = s.push(x);
    assert forall|e: Seq<char>| t.to_set().contains(e) implies s.to_set().insert(x).contains(
        e,
    ) by {
        let i = choose|i: int| 0 <= i < t.len() && t[i] == e;
        if i < s.len() {
            assert(s[i] == e);
        }
    }
    assert forall|e: Seq<char>| s.to_set().insert(x).contains(e) implies t.to_set().contains(
        e,
    ) by {
        if e == x {
            assert(t[s.len() as int] == e);
        } else {
            let i = choose|i: int| 0 <= i < s.len() && s[i] == e;
            assert(t[i] == e);
        }
    }
    assert(t.to_set() =~= s.to_set().insert(x));
}

/// Resolves every group of same-gene candidates to a single reporting row,
/// as `spec_gene_row` describes: the best-priority zone wins and its tied
/// transcripts are merged; a group with no zone in the priority order
/// falls back to its first candidate.
pub fn select_transcript(
    candidates: &Vec<Candidate>,
    groups: &Vec<Vec<usize>>,
    rules: &Vec<Area>,
) -> (r: Vec<Candidate>)
    requires
        spec_groups_ok(spec_groups_view(groups@), candidates@.len() as int),
        spec_cands_wf(candidates@),
        forall|k: int| 0 <= k < groups@.len() ==> (#[trigger] groups@[k])@.len() >= 1,
    ensures
        r@.len() == groups@.len(),
        forall|k: int|
            0 <= k < groups@.len() ==> spec_gene_row(
                candidates@,
                (#[trigger] groups@[k])@,
                rules@,
                r@[k],
            ),
{
    let mut r: Vec<Candidate> = Vec::new();
    let mut k: usize = 0;
    while k < groups.len()
        invariant
            0 <= k <= groups@.len(),
            spec_groups_ok(spec_groups_view(groups@), candidates@.len() as int),
            spec_cands_wf(candidates@),
            forall|j: int| 0 <= j < groups@.len() ==> (#[trigger] groups@[j])@.len() >= 1,
            r@.len() == k,
            forall|j: int|
                0 <= j < k ==> spec_gene_row(candidates@, (#[trigger] groups@[j])@, rules@, r@[j]),
        decreases groups@.len() - k,
    {
        proof {
            assert(spec_groups_view(groups@)[k as int] == groups@[k as int]@);
        }
        let members = collect_members(candidates, &groups[k]);
        proof {
            assert(spec_cands_wf(members@)) by {
                assert forall|i: int|
                    0 <= i < members@.len() implies (
                    #[trigger] members@[i]).pctg_region.well_formed()
                    && members@[i].pctg_area.well_formed() by {
                    assert(members@[i] == candidates@[groups@[k as int]@[i] as int]);
                }
            }
        }
        let best = best_priority(&members, rules);
        if best == rules.len() {
            r.push(members[0].clone());
        } else {
            let tied = filter_priority(&members, rules, best);
            proof {
                lemma_best_priority_props(members@, rules@);
                let w = choose|i: int|
                    0 <= i < members@.len() && spec_rule_index(
                        rules@,
                        (#[trigger] members@[i]).area,
                    ) == spec_best_priority(members@, rules@);
                let pred = |c: Candidate| spec_rule_index(rules@, c.area) == best as int;
                members@.lemma_filter_contains(pred, w);
                lemma_filter_preserves_wf(members@, pred);
            }
            let merged = merge_tied(&tied);
            r.push(merged);
        }
        k += 1;
    }
    r
}

/// The maximum percentage is attained by a member and bounds every
/// member, by value.
pub proof fn lemma_max_pct_props(ps: Seq<Pct>)
    requires
        ps.len() >= 1,
        forall|i: int| 0 <= i < ps.len() ==> (#[trigger] ps[i]).well_formed(),
    ensures
        exists|i: int| 0 <= i < ps.len() && ps[i] == spec_max_pct(ps),
        forall|i: int| 0 <= i < ps.len() ==> (#[trigger] ps[i]).spec_le(spec_max_pct(ps)),
    decreases ps.len(),
{
    if ps.len() == 1 {
        assert(ps[0] == spec_max_pct(ps));
    } else {
        lemma_max_pct_props(ps.drop_last());
        let m = spec_max_pct(ps.drop_last());
        let last = ps.last();
        let w = choose|w: int| 0 <= w < ps.drop_last().len() && ps.drop_last()[w] == m;
        assert(ps[w] == m);
        if m.spec_le(last) {
            assert(ps[ps.len() - 1] == spec_max_pct(ps));
            assert forall|i: int| 0 <= i < ps.len() implies (#[trigger] ps[i]).spec_le(
                spec_max_pct(ps),
            ) by {
                if i < ps.len() - 1 {
                    assert(ps.drop_last()[i] == ps[i]);
                    crate::pct::lemma_pct_le_trans(ps[i], m, last);
                }
            }
        } else {
            lemma_pct_le_total(m, last);
            assert forall|i: int| 0 <= i < ps.len() implies (#[trigger] ps[i]).spec_le(
                spec_max_pct(ps),
            ) by {
                if i < ps.len() - 1 {
                    assert(ps.drop_last()[i] == ps[i]);
                }
            }
        }
    }
}

/// A strictly ascending label list is determined by its set of members:
/// the canonical spelling of a label set is unique.
pub proof fn lemma_sorted_unique_canonical(a: Seq<Seq<char>>, b: Seq<Seq<char>>)
    requires
        spec_sorted_unique(a),
        spec_sorted_unique(b),
        a.to_set() == b.to_set(),
    ensures
        a == b,
    decreases a.len(),
{
    if a.len() == 0 {
        if b.len() > 0 {
            assert(b.to_set().contains(b[0]));
            assert(a.to_set().contains(b[0]));
            let w = choose|w: int| 0 <= w < a.len() && a[w] == b[0];
            assert(false);
        }
        assert(a =~= b);
    } else if b.len() == 0 {
        assert(a.to_set().contains(a[0]));
        assert(b.to_set().contains(a[0]));
        let w = choose|w: int| 0 <= w < b.len() && b[w] == a[0];
        assert(false);
    } else {
        assert(a.to_set().contains(a[0]));
        assert(b.to_set().contains(a[0]));
        let j = choose|j: int| 0 <= j < b.len() && b[j] == a[0];
        assert(b.to_set().contains(b[0]));
        assert(a.to_set().contains(b[0]));
        let i = choose|i: int| 0 <= i < a.len() && a[i] == b[0];
        if a[0] != b[0] {
            assert(i != 0);
            assert(j != 0);
            assert(lex_lt(a[0], a[i]));
            assert(lex_lt(b[0], b[j]));
            lemma_lex_lt_trans(a[0], b[0], a[0]);
            lemma_lex_lt_irrefl(a[0], a[0]);
            assert(false);
        }
        let at = a.skip(1);
        let bt = b.skip(1);
        assert(at.to_set() =~= a.to_set().remove(a[0])) by {
            assert forall|x: Seq<char>| at.to_set().contains(x) implies a.to_set().remove(
                a[0],
            ).contains(x) by {
                let k = choose|k: int| 0 <= k < at.len() && at[k] == x;
                assert(a[k + 1] == x);
                assert(lex_lt(a[0], a[k + 1]));
                lemma_lex_lt_irrefl(a[0], a[k + 1]);
            }
            assert forall|x: Seq<char>| a.to_set().remove(a[0]).contains(x) implies at
                .to_set().contains(x) by {
                let k = choose|k: int| 0 <= k < a.len() && a[k] == x;
                assert(k != 0);
                assert(at[k - 1] == x);
            }
        }
        assert(bt.to_set() =~= b.to_set().remove(b[0])) by {
            assert forall|x: Seq<char>| bt.to_set().contains(x) implies b.to_set().remove(
                b[0],
            ).contains(x) by {
                let k = choose|k: int| 0 <= k < bt.len() && bt[k] == x;
                assert(b[k + 1] == x);
                assert(lex_lt(b[0], b[k + 1]));
                lemma_lex_lt_irrefl(b[0], b[k + 1]);
            }
            assert forall|x: Seq<char>| b.to_set().remove(b[0]).contains(x) implies bt
                .to_set().contains(x) by {
                let k = choose|k: int| 0 <= k < b.len() && b[k] == x;
                assert(k != 0);
                assert(bt[k - 1] == x);
            }
        }
        assert(spec_sorted_unique(at)) by {
            assert forall|p: int, q: int| 0 <= p < q < at.len() implies lex_lt(
                #[trigger] at[p],
                #[trigger] at[q],
            ) by {
                assert(at[p] == a[p + 1]);
                assert(at[q] == a[q + 1]);
            }
        }
        assert(spec_sorted_unique(bt)) by {
            assert forall|p: int, q: int| 0 <= p < q < bt.len() implies lex_lt(
                #[trigger] bt[p],
                #[trigger] bt[q],
            ) by {
                assert(bt[p] == b[p + 1]);
                assert(bt[q] == b[q + 1]);
            }
        }
        lemma_sorted_unique_canonical(at, bt);
        assert(a.len() == b.len());
        assert forall|k: int| 0 <= k < a.len() implies a[k] == b[k] by {
            if k > 0 {
                assert(at[k - 1] == a[k]);
                assert(bt[k - 1] == b[k]);
            }
        }
        assert(a =~= b);
    }
}

/// Gene-level merging is stable under reordering of the candidates in a
/// group: however the same candidates are ordered, the merged row reports
/// the same zone, the same percentages (by value), and the same merged
/// transcript and exon labels; and with the group drawn from one gene and
/// strand, the same gene and strand.  (The fallback row for a group with
/// no zone in the priority order copies the group's first candidate, so
/// that case depends on the order and is excluded here.)
pub proof fn lemma_gene_merge_order_independent(
    g1: Seq<Candidate>,
    g2: Seq<Candidate>,
    rules: Seq<Area>,
    out1: Candidate,
    out2: Candidate,
)
    requires
        g1.to_multiset() == g2.to_multiset(),
        g1.len() >= 1,
        spec_cands_wf(g1),
        forall|i: int, j: int| 0 <= i < j < rules.len() ==> rules[i] != rules[j],
        spec_best_priority(g1, rules) < rules.len(),
        spec_gene_row_members(g1, rules, out1),
        spec_gene_row_members(g2, rules, out2),
    ensures
        out1.area == out2.area,
        out1.pctg_region.spec_eq_value(out2.pctg_region),
        out1.pctg_area.spec_eq_value(out2.pctg_area),
        out1.transcript@ == out2.transcript@,
        out1.exon_number@ == out2.exon_number@,
        (forall|i: int| 0 <= i < g1.len() ==> (#[trigger] g1[i]).gene == g1[0].gene)
            ==> out1.gene == out2.gene,
        (forall|i: int| 0 <= i < g1.len() ==> (#[trigger] g1[i]).strand == g1[0].strand)
            ==> out1.strand == out2.strand,
{
    broadcast use vstd::seq_lib::group_to_multiset_ensures;

    g1.to_multiset_ensures();
    g2.to_multiset_ensures();
    assert(g2.len() == g1.len());
    assert forall|c: Candidate| g1.contains(c) implies g2.contains(c) by {
        assert(g1.to_multiset().count(c) > 0);
    }
    assert forall|c: Candidate| g2.contains(c) implies g1.contains(c) by {
        assert(g2.to_multiset().count(c) > 0);
    }
    assert(spec_cands_wf(g2)) by {
        assert forall|i: int|
            0 <= i < g2.len() implies (#[trigger] g2[i]).pctg_region.well_formed()
            && g2[i].pctg_area.well_formed() by {
            assert(g2.contains(g2[i]));
            let w = choose|w: int| 0 <= w < g1.len() && g1[w] == g2[i];
        }
    }
    lemma_best_priority_props(g1, rules);
    lemma_best_priority_props(g2, rules);
    let b1 = spec_best_priority(g1, rules);
    let b2 = spec_best_priority(g2, rules);
    let w1 = choose|i: int|
        0 <= i < g1.len() && spec_rule_index(rules, (#[trigger] g1[i]).area) == b1;
    assert(g1.contains(g1[w1]));
    let w1b = choose|w: int| 0 <= w < g2.len() && g2[w] == g1[w1];
    assert(b2 <= b1);
    let w2 = choose|i: int|
        0 <= i < g2.len() && spec_rule_index(rules, (#[trigger] g2[i]).area) == b2;
    assert(g2.contains(g2[w2]));
    let w2b = choose|w: int| 0 <= w < g1.len() && g1[w] == g2[w2];
    assert(b1 <= b2);
    assert(b1 == b2);
    let pred = |c: Candidate| spec_rule_index(rules, c.area) == b1;
    let t1 = g1.filter(pred);
    let t2 = g2.filter(pred);
    g1.lemma_filter_contains(pred, w1);
    g2.lemma_filter_contains(pred, w1b);
    assert(t1.len() >= 1) by {
        let w = choose|w: int| 0 <= w < t1.len() && t1[w] == g1[w1];
    }
    assert(t2.len() >= 1) by {
        let w = choose|w: int| 0 <= w < t2.len() && t2[w] == g2[w1b];
    }
    lemma_filter_preserves_wf(g1, pred);
    lemma_filter_preserves_wf(g2, pred);
    // Every tied member of one ordering is a tied member of the other.
    assert forall|c: Candidate| t1.contains(c) implies t2.contains(c) by {
        g1.lemma_filter_contains_rev(pred, c);
        g1.lemma_filter_pred(pred, choose|k: int| 0 <= k < t1.len() && t1[k] == c);
        let w = choose|w: int| 0 <= w < g2.len() && g2[w] == c;
        g2.lemma_filter_contains(pred, w);
    }
    assert forall|c: Candidate| t2.contains(c) implies t1.contains(c) by {
        g2.lemma_filter_contains_rev(pred, c);
        g2.lemma_filter_pred(pred, choose|k: int| 0 <= k < t2.len() && t2[k] == c);
        let w = choose|w: int| 0 <= w < g1.len() && g1[w] == c;
        g1.lemma_filter_contains(pred, w);
    }
    // Both heads carry the best-priority zone, which the duplicate-free
    // priority order pins to one zone.
    g1.lemma_filter_pred(pred, 0);
    g2.lemma_filter_pred(pred, 0);
    lemma_rule_index_props(rules, t1[0].area);
    lemma_rule_index_props(rules, t2[0].area);
    assert(t1[0].area == rules[b1]);
    assert(t2[0].area == rules[b1]);
    assert(out1.area == out2.area);
    // The maxima agree by value.
    let r1 = t1.map_values(|c: Candidate| c.pctg_region);
    let r2 = t2.map_values(|c: Candidate| c.pctg_region);
    assert(forall|i: int| 0 <= i < r1.len() ==> (#[trigger] r1[i]).well_formed());
    assert(forall|i: int| 0 <= i < r2.len() ==> (#[trigger] r2[i]).well_formed());
    lemma_max_pct_props(r1);
    lemma_max_pct_props(r2);
    let m1w = choose|i: int| 0 <= i < r1.len() && r1[i] == spec_max_pct(r1);
    assert(t1.contains(t1[m1w]));
    assert(t2.contains(t1[m1w]));
    let m1k = choose|k: int| 0 <= k < t2.len() && t2[k] == t1[m1w];
    assert(r2[m1k] == spec_max_pct(r1));
    assert(spec_max_pct(r1).spec_le(spec_max_pct(r2)));
    let m2w = choose|i: int| 0 <= i < r2.len() && r2[i] == spec_max_pct(r2);
    assert(t2.contains(t2[m2w]));
    assert(t1.contains(t2[m2w]));
    let m2k = choose|k: int| 0 <= k < t1.len() && t1[k] == t2[m2w];
    assert(r1[m2k] == spec_max_pct(r2));
    assert(spec_max_pct(r2).spec_le(spec_max_pct(r1)));
    assert(out1.pctg_region.spec_eq_value(out2.pctg_region));
    let a1 = t1.map_values(|c: Candidate| c.pctg_area);
    let a2 = t2.map_values(|c: Candidate| c.pctg_area);
    assert(forall|i: int| 0 <= i < a1.len() ==> (#[trigger] a1[i]).well_formed());
    assert(forall|i: int| 0 <= i < a2.len() ==> (#[trigger] a2[i]).well_formed());
    lemma_max_pct_props(a1);
    lemma_max_pct_props(a2);
    let n1w = choose|i: int| 0 <= i < a1.len() && a1[i] == spec_max_pct(a1);
    assert(t1.contains(t1[n1w]));
    assert(t2.contains(t1[n1w]));
    let n1k = choose|k: int| 0 <= k < t2.len() && t2[k] == t1[n1w];
    assert(a2[n1k] == spec_max_pct(a1));
    assert(spec_max_pct(a1).spec_le(spec_max_pct(a2)));
    let n2w = choose|i: int| 0 <= i < a2.len() && a2[i] == spec_max_pct(a2);
    assert(t2.contains(t2[n2w]));
    assert(t1.contains(t2[n2w]));
    let n2k = choose|k: int| 0 <= k < t1.len() && t1[k] == t2[n2w];
    assert(a1[n2k] == spec_max_pct(a2));
    assert(spec_max_pct(a2).spec_le(spec_max_pct(a1)));
    assert(out1.pctg_area.spec_eq_value(out2.pctg_area));
    // The label sets agree, so the canonical spellings agree.
    assert(spec_transcript_set(t1) =~= spec_transcript_set(t2)) by {
        assert forall|x: Seq<char>|
            spec_transcript_set(t1).contains(x) implies spec_transcript_set(t2).contains(x) by {
            let mm = t1.map_values(|c: Candidate| c.transcript@);
            assert(mm.contains(x));
            let k = choose|k: int| 0 <= k < mm.len() && mm[k] == x;
            assert(t1[k].transcript@ == x);
            assert(t2.contains(t1[k]));
            let w = choose|w: int| 0 <= w < t2.len() && t2[w] == t1[k];
            let m2 = t2.map_values(|c: Candidate| c.transcript@);
            assert(m2[w] == x);
            assert(m2.contains(x));
        }
        assert forall|x: Seq<char>|
            spec_transcript_set(t2).contains(x) implies spec_transcript_set(t1).contains(x) by {
            let mm = t2.map_values(|c: Candidate| c.transcript@);
            assert(mm.contains(x));
            let k = choose|k: int| 0 <= k < mm.len() && mm[k] == x;
            assert(t2[k].transcript@ == x);
            assert(t1.contains(t2[k]));
            let w = choose|w: int| 0 <= w < t1.len() && t1[w] == t2[k];
            let m2 = t1.map_values(|c: Candidate| c.transcript@);
            assert(m2[w] == x);
            assert(m2.contains(x));
        }
    }
    assert(spec_exon_label_set(t1) =~= spec_exon_label_set(t2)) by {
        assert forall|x: Seq<char>|
            spec_exon_label_set(t1).contains(x) implies spec_exon_label_set(t2).contains(x) by {
            let mm = t1.map_values(|c: Candidate| c.exon_number@);
            assert(mm.contains(x));
            let k = choose|k: int| 0 <= k < mm.len() && mm[k] == x;
            assert(t1[k].exon_number@ == x);
            assert(t2.contains(t1[k]));
            let w = choose|w: int| 0 <= w < t2.len() && t2[w] == t1[k];
            let m2 = t2.map_values(|c: Candidate| c.exon_number@);
            assert(m2[w] == x);
            assert(m2.contains(x));
        }
        assert forall|x: Seq<char>|
            spec_exon_label_set(t2).contains(x) implies spec_exon_label_set(t1).contains(x) by {
            let mm = t2.map_values(|c: Candidate| c.exon_number@);
            assert(mm.contains(x));
            let k = choose|k: int| 0 <= k < mm.len() && mm[k] == x;
            assert(t2[k].exon_number@ == x);
            assert(t1.contains(t2[k]));
            let w = choose|w: int| 0 <= w < t1.len() && t1[w] == t2[k];
            let m2 = t1.map_values(|c: Candidate| c.exon_number@);
            assert(m2[w] == x);
            assert(m2.contains(x));
        }
    }
    let ls1 = choose|ls: Seq<Seq<char>>|
        #[trigger] spec_merged_label(ls, spec_transcript_set(t1), out1.transcript@);
    let ls2 = choose|ls: Seq<Seq<char>>|
        #[trigger] spec_merged_label(ls, spec_transcript_set(t2), out2.transcript@);
    lemma_sorted_unique_canonical(ls1, ls2);
    assert(out1.transcript@ == out2.transcript@);
    let es1 = choose|ls: Seq<Seq<char>>|
        #[trigger] spec_merged_label(ls, spec_exon_label_set(t1), out1.exon_number@);
    let es2 = choose|ls: Seq<Seq<char>>|
        #[trigger] spec_merged_label(ls, spec_exon_label_set(t2), out2.exon_number@);
    lemma_sorted_unique_canonical(es1, es2);
    assert(out1.exon_number@ == out2.exon_number@);
    // Shared gene and strand carry over to both heads.
    if forall|i: int| 0 <= i < g1.len() ==> (#[trigger] g1[i]).gene == g1[0].gene {
        g1.lemma_filter_contains_rev(pred, t1[0]);
        g2.lemma_filter_contains_rev(pred, t2[0]);
        let u1 = choose|u: int| 0 <= u < g1.len() && g1[u] == t1[0];
        assert(g1.contains(t2[0]));
        let u2 = choose|u: int| 0 <= u < g1.len() && g1[u] == t2[0];
        assert(out1.gene == out2.gene);
    }
    if forall|i: int| 0 <= i < g1.len() ==> (#[trigger] g1[i]).strand == g1[0].strand {
        g1.lemma_filter_contains_rev(pred, t1[0]);
        g2.lemma_filter_contains_rev(pred, t2[0]);
        let u1 = choose|u: int| 0 <= u < g1.len() && g1[u] == t1[0];
        assert(g1.contains(t2[0]));
        let u2 = choose|u: int| 0 <= u < g1.len() && g1[u] == t2[0];
        assert(out1.strand == out2.strand);
    }
}

} // verus!
