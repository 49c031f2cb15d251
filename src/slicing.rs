use vstd::prelude::*;
use crate::ctags::{Ctag, CtagsOutput};
use crate::json::record_json;

verus! {

/// The total of a run of token costs.
pub open spec fn total_cost(costs: Seq<usize>) -> int
    decreases costs.len(),
{
    if costs.len() == 0 {
        0
    } else {
        costs[0] + total_cost(costs.drop_first())
    }
}

/// How many leading costs fit, one after the other, in `budget`.
pub open spec fn fitting_prefix(costs: Seq<usize>, budget: int) -> nat
    decreases costs.len(),
{
    if costs.len() == 0 || costs[0] > budget {
        0
    } else {
        1 + fitting_prefix(costs.drop_first(), budget - costs[0])
    }
}

/// The size of the first group: the longest prefix whose total fits in
/// `ceiling`, or the first record alone when even that one does not fit.
pub open spec fn first_group_len(costs: Seq<usize>, ceiling: usize) -> nat {
    if costs.len() == 0 {
        0
    } else if costs[0] > ceiling {
        1
    } else {
        fitting_prefix(costs, ceiling as int)
    }
}

/// The greedy partition of `items` (whose token costs are `costs`, one per
/// item) into consecutive groups under `ceiling`.
pub open spec fn greedy_groups<A>(items: Seq<A>, costs: Seq<usize>, ceiling: usize) -> Seq<Seq<A>>
    decreases items.len(),
{
    if items.len() == 0 {
        Seq::empty()
    } else {
        let k = first_group_len(costs, ceiling);
        if k == 0 || k > items.len() {
            Seq::empty()
        } else {
            seq![items.take(k as int)] + greedy_groups(
                items.skip(k as int),
                costs.skip(k as int),
                ceiling,
            )
        }
    }
}

proof fn lemma_fitting_prefix(costs: Seq<usize>, budget: int)
    ensures
        fitting_prefix(costs, budget) <= costs.len(),
        total_cost(costs.take(fitting_prefix(costs, budget) as int)) <= budget || fitting_prefix(costs, budget) == 0,
        budget >= 0 ==> total_cost(costs.take(fitting_prefix(costs, budget) as int)) <= budget,
        fitting_prefix(costs, budget) < costs.len() ==> total_cost(
            costs.take(fitting_prefix(costs, budget) as int),
        ) + costs[fitting_prefix(costs, budget) as int] > budget,
    decreases costs.len(),
{
    let k = fitting_prefix(costs, budget);
    if costs.len() == 0 || costs[0] > budget {
        assert(costs.take(0) =~= Seq::<usize>::empty());
    } else {
        let rest = costs.drop_first();
        lemma_fitting_prefix(rest, budget - costs[0]);
        assert(costs.take(k as int).drop_first() =~= rest.take(k - 1));
        assert(costs.take(k as int)[0] == costs[0]);
        if k < costs.len() {
            assert(rest[k - 1] == costs[k as int]);
        }
    }
}

proof fn lemma_first_group(costs: Seq<usize>, ceiling: usize)
    requires
        costs.len() > 0,
    ensures
        1 <= first_group_len(costs, ceiling) <= costs.len(),
        total_cost(costs.take(first_group_len(costs, ceiling) as int)) <= ceiling || (
        first_group_len(costs, ceiling) == 1 && costs[0] > ceiling),
        first_group_len(costs, ceiling) < costs.len() ==> total_cost(
            costs.take(first_group_len(costs, ceiling) as int),
        ) + costs[first_group_len(costs, ceiling) as int] > ceiling,
{
    if costs[0] > ceiling {
        let one = costs.take(1);
        assert(one.drop_first() =~= Seq::<usize>::empty());
        assert(total_cost(one.drop_first()) == 0);
        assert(total_cost(one) == costs[0]);
    } else {
        lemma_fitting_prefix(costs, ceiling as int);
        let k = fitting_prefix(costs, ceiling as int);
        assert(k >= 1) by {
            reveal_with_fuel(fitting_prefix, 2);
        }
    }
}

/// The token-budget slicer's law, for every catalog and every ceiling.
///
/// The groups, put back together in order, give back the catalog; no group is
/// empty; each group's total cost stays within the ceiling, except a group of
/// exactly one record that alone exceeds it; and each group but the last is
/// maximal: the next record would not have fit in it.
pub proof fn lemma_greedy_groups<A>(items: Seq<A>, costs: Seq<usize>, ceiling: usize)
    requires
        costs.len() == items.len(),
    ensures
        greedy_groups(items, costs, ceiling).flatten() == items,
        greedy_groups(costs, costs, ceiling).len() == greedy_groups(items, costs, ceiling).len(),
        forall|i: int|
            0 <= i < greedy_groups(items, costs, ceiling).len() ==> {
                let g = #[trigger] greedy_groups(items, costs, ceiling)[i];
                let gc = greedy_groups(costs, costs, ceiling)[i];
                &&& g.len() > 0
                &&& gc.len() == g.len()
                &&& (total_cost(gc) <= ceiling || (gc.len() == 1 && gc[0] > ceiling))
            },
        forall|i: int|
            0 <= i < greedy_groups(items, costs, ceiling).len() - 1 ==> total_cost(
                #[trigger] greedy_groups(costs, costs, ceiling)[i],
            ) + greedy_groups(costs, costs, ceiling)[i + 1][0] > ceiling,
    decreases items.len(),
{
    let g = greedy_groups(items, costs, ceiling);
    let gc = greedy_groups(costs, costs, ceiling);
    if items.len() == 0 {
        assert(g.flatten() =~= items);
    } else {
        lemma_first_group(costs, ceiling);
        let k = first_group_len(costs, ceiling) as int;
        let rest = items.skip(k);
        let crest = costs.skip(k);
        lemma_greedy_groups(rest, crest, ceiling);
        let gr = greedy_groups(rest, crest, ceiling);
        let gcr = greedy_groups(crest, crest, ceiling);
        assert(g == seq![items.take(k)] + gr);
        assert(gc == seq![costs.take(k)] + gcr);
        assert(g.drop_first() =~= gr);
        assert(gc.drop_first() =~= gcr);
        assert(g.flatten() == items.take(k) + gr.flatten());
        assert(items.take(k) + rest =~= items);
        assert forall|i: int| 0 <= i < g.len() implies {
            let gi = #[trigger] g[i];
            let gci = gc[i];
            &&& gi.len() > 0
            &&& gci.len() == gi.len()
            &&& (total_cost(gci) <= ceiling || (gci.len() == 1 && gci[0] > ceiling))
        } by {
            if i > 0 {
                assert(g[i] == gr[i - 1]);
                assert(gc[i] == gcr[i - 1]);
            }
        }
        assert forall|i: int| 0 <= i < g.len() - 1 implies total_cost(#[trigger] gc[i]) + gc[i + 1][0]
            > ceiling by {
            if i > 0 {
                assert(gc[i] == gcr[i - 1]);
                assert(gc[i + 1] == gcr[i]);
            } else {
                assert(gc[1] == gcr[0]);
                assert(crest.len() > 0);
                lemma_first_group(crest, ceiling);
                assert(gcr[0] == crest.take(first_group_len(crest, ceiling) as int));
                assert(gcr[0][0] == costs[k]);
            }
        }
    }
}

proof fn lemma_total_nonnegative(s: Seq<usize>)
    ensures
        total_cost(s) >= 0,
    decreases s.len(),
{
    if s.len() > 0 {
        lemma_total_nonnegative(s.drop_first());
    }
}

proof fn lemma_total_at_least(s: Seq<usize>, j: int)
    requires
        0 <= j < s.len(),
    ensures
        total_cost(s) >= s[j],
    decreases s.len(),
{
    lemma_total_nonnegative(s.drop_first());
    if j > 0 {
        lemma_total_at_least(s.drop_first(), j - 1);
    }
}

/// A record whose cost alone exceeds the ceiling is never dropped nor shares
/// a group: the partition holds a group of exactly that record.
pub proof fn lemma_oversized_record_alone<A>(items: Seq<A>, costs: Seq<usize>, ceiling: usize, p: int)
    requires
        costs.len() == items.len(),
        0 <= p < items.len(),
        costs[p] > ceiling,
    ensures
        exists|i: int|
            0 <= i < greedy_groups(items, costs, ceiling).len() && #[trigger] greedy_groups(
                items,
                costs,
                ceiling,
            )[i] == seq![items[p]],
    decreases items.len(),
{
    lemma_first_group(costs, ceiling);
    let k = first_group_len(costs, ceiling) as int;
    let g = greedy_groups(items, costs, ceiling);
    let gr = greedy_groups(items.skip(k), costs.skip(k), ceiling);
    assert(g == seq![items.take(k)] + gr);
    if p < k {
        lemma_total_at_least(costs.take(k), p);
        assert(costs.take(k)[p] == costs[p]);
        assert(k == 1);
        assert(g[0] =~= seq![items[p]]);
    } else {
        lemma_oversized_record_alone(items.skip(k), costs.skip(k), ceiling, p - k);
        let i = choose|i: int| 0 <= i < gr.len() && #[trigger] gr[i] == seq![items.skip(k)[p - k]];
        assert(g[i + 1] == gr[i]);
        assert(items.skip(k)[p - k] == items[p]);
    }
}

/// The number of groups of the greedy partition of `costs`.
pub open spec fn group_count(costs: Seq<usize>, ceiling: usize) -> nat
    decreases costs.len(),
{
    if costs.len() == 0 {
        0
    } else {
        let k = first_group_len(costs, ceiling);
        if k == 0 || k > costs.len() {
            0
        } else {
            1 + group_count(costs.skip(k as int), ceiling)
        }
    }
}

/// `sizes` cuts `costs` into consecutive non-empty groups, each within the
/// ceiling or made of a single record.
pub open spec fn valid_partition(costs: Seq<usize>, sizes: Seq<nat>, ceiling: usize) -> bool
    decreases sizes.len(),
{
    if sizes.len() == 0 {
        costs.len() == 0
    } else {
        let m = sizes[0];
        &&& 1 <= m <= costs.len()
        &&& (total_cost(costs.take(m as int)) <= ceiling || m == 1)
        &&& valid_partition(costs.skip(m as int), sizes.drop_first(), ceiling)
    }
}

proof fn lemma_group_count<A>(items: Seq<A>, costs: Seq<usize>, ceiling: usize)
    requires
        costs.len() == items.len(),
    ensures
        greedy_groups(items, costs, ceiling).len() == group_count(costs, ceiling),
    decreases items.len(),
{
    if items.len() > 0 {
        lemma_first_group(costs, ceiling);
        let k = first_group_len(costs, ceiling) as int;
        lemma_group_count(items.skip(k), costs.skip(k), ceiling);
    }
}

proof fn lemma_inner_run_total(s: Seq<usize>, d: int, k: int)
    requires
        0 <= d <= k <= s.len(),
    ensures
        total_cost(s.skip(d).take(k - d)) <= total_cost(s.take(k)),
    decreases d,
{
    if d == 0 {
        assert(s.skip(0) =~= s);
    } else {
        lemma_inner_run_total(s.skip(1), d - 1, k - 1);
        assert(s.skip(1).skip(d - 1) =~= s.skip(d));
        assert(s.skip(1).take(k - 1) =~= s.take(k).drop_first());
        lemma_total_nonnegative(s.take(k).drop_first());
    }
}

proof fn lemma_fitting_at_least(s: Seq<usize>, budget: int, m: int)
    requires
        0 <= m <= s.len(),
        total_cost(s.take(m)) <= budget,
    ensures
        fitting_prefix(s, budget) >= m,
    decreases m,
{
    if m > 0 {
        lemma_total_at_least(s.take(m), 0);
        assert(s.take(m).drop_first() =~= s.drop_first().take(m - 1));
        lemma_fitting_at_least(s.drop_first(), budget - s[0], m - 1);
    }
}

/// Starting the greedy partition later never needs more groups.
proof fn lemma_group_count_suffix(s: Seq<usize>, ceiling: usize, d: int)
    requires
        0 <= d <= s.len(),
    ensures
        group_count(s.skip(d), ceiling) <= group_count(s, ceiling),
    decreases s.len(),
{
    if d == 0 {
        assert(s.skip(0) =~= s);
    } else {
        lemma_first_group(s, ceiling);
        let k = first_group_len(s, ceiling) as int;
        let rest = s.skip(k);
        if d >= k {
            lemma_group_count_suffix(rest, ceiling, d - k);
            assert(rest.skip(d - k) =~= s.skip(d));
        } else {
            let t = s.skip(d);
            assert(total_cost(s.take(k)) <= ceiling);
            lemma_total_at_least(s.take(k), d);
            assert(t[0] == s.take(k)[d]);
            lemma_inner_run_total(s, d, k);
            lemma_fitting_at_least(t, ceiling as int, k - d);
            lemma_first_group(t, ceiling);
            let k2 = first_group_len(t, ceiling) as int;
            assert(d + k2 >= k);
            lemma_group_count_suffix(rest, ceiling, d + k2 - k);
            assert(rest.skip(d + k2 - k) =~= t.skip(k2));
        }
    }
}

proof fn lemma_fewest_groups(costs: Seq<usize>, sizes: Seq<nat>, ceiling: usize)
    requires
        valid_partition(costs, sizes, ceiling),
    ensures
        group_count(costs, ceiling) <= sizes.len(),
    decreases sizes.len(),
{
    if sizes.len() > 0 {
        let m = sizes[0] as int;
        lemma_first_group(costs, ceiling);
        let k = first_group_len(costs, ceiling) as int;
        if m > k {
            if costs[0] > ceiling {
                lemma_total_at_least(costs.take(m), 0);
            } else {
                lemma_fitting_at_least(costs, ceiling as int, m);
            }
        }
        lemma_fewest_groups(costs.skip(m), sizes.drop_first(), ceiling);
        lemma_group_count_suffix(costs.skip(m), ceiling, k - m);
        assert(costs.skip(m).skip(k - m) =~= costs.skip(k));
    }
}

/// The greedy partition has the fewest groups: no cut of the catalog into
/// consecutive groups, each within the ceiling or of a single record, has
/// fewer.
pub proof fn lemma_greedy_is_fewest<A>(items: Seq<A>, costs: Seq<usize>, ceiling: usize, sizes: Seq<nat>)
    requires
        costs.len() == items.len(),
        valid_partition(costs, sizes, ceiling),
    ensures
        greedy_groups(items, costs, ceiling).len() <= sizes.len(),
{
    lemma_group_count(items, costs, ceiling);
    lemma_fewest_groups(costs, sizes, ceiling);
}

/// A stock tokenizer of tiktoken, by the name of its encoding.
#[derive(Debug, PartialEq, Eq, Structural, Clone, Copy)]
pub enum Encoding {
    R50kBase,
    P50kBase,
    P50kEdit,
    Cl100kBase,
    O200kBase,
    O200kHarmony,
}

/// The number of tokens `encoding` turns a text into (special tokens
/// allowed), or nothing when tiktoken's regex search gives up on the text.
pub uninterp spec fn token_count(encoding: Encoding, text: Seq<char>) -> Option<usize>;

/// Relies on `tiktoken_rs::CoreBPE::encode` with every special token allowed,
/// on the stock tokenizer of `encoding` (`*_singleton`, built from the tables
/// embedded in the crate, which hold every single byte, so no piece of a text
/// lacks a rank). `encode` returns an error only when fancy-regex gives up on
/// the text (its backtracking limit or its stack bound); the special-token
/// regex is an alternation of escaped literals, which cannot fail.
#[verifier::external_body]
fn count_tokens(text: &str, encoding: Encoding) -> (r: Option<usize>)
    ensures
        r == token_count(encoding, text@),
{
    let bpe = match encoding {
        Encoding::R50kBase => tiktoken_rs::r50k_base_singleton(),
        Encoding::P50kBase => tiktoken_rs::p50k_base_singleton(),
        Encoding::P50kEdit => tiktoken_rs::p50k_edit_singleton(),
        Encoding::Cl100kBase => tiktoken_rs::cl100k_base_singleton(),
        Encoding::O200kBase => tiktoken_rs::o200k_base_singleton(),
        Encoding::O200kHarmony => tiktoken_rs::o200k_harmony_singleton(),
    };
    match bpe.encode(text, &bpe.special_tokens()) {
        Ok((tokens, _)) => Some(tokens.len()),
        Err(_) => None,
    }
}

/// The token cost of a record: the tokens of its canonical serialised form.
pub open spec fn record_cost(encoding: Encoding, t: Ctag) -> Option<usize> {
    token_count(encoding, record_json(t))
}

/// The token cost of a catalog: the sum of its records' costs, or nothing
/// when a record cannot be counted or the sum exceeds `usize::MAX`.
pub open spec fn catalog_cost(encoding: Encoding, s: Seq<Ctag>) -> Option<usize>
    decreases s.len(),
{
    if s.len() == 0 {
        Some(0)
    } else {
        match (catalog_cost(encoding, s.drop_last()), record_cost(encoding, s.last())) {
            (Some(a), Some(b)) => if a + b <= usize::MAX {
                Some((a + b) as usize)
            } else {
                None
            },
            _ => None,
        }
    }
}

/// Every record of `s` can be counted.
pub open spec fn all_counted(encoding: Encoding, s: Seq<Ctag>) -> bool {
    forall|i: int| 0 <= i < s.len() ==> #[trigger] record_cost(encoding, s[i]) is Some
}

/// The records' token costs, in order (meaningful when all are counted).
pub open spec fn counted_costs(encoding: Encoding, s: Seq<Ctag>) -> Seq<usize> {
    s.map_values(
        |t: Ctag|
            match record_cost(encoding, t) {
                Some(n) => n,
                None => 0,
            },
    )
}

/// `i` is the position of the first record of `s` that cannot be counted.
pub open spec fn first_uncounted(encoding: Encoding, s: Seq<Ctag>, i: int) -> bool {
    &&& 0 <= i < s.len()
    &&& record_cost(encoding, s[i]) is None
    &&& forall|j: int| 0 <= j < i ==> #[trigger] record_cost(encoding, s[j]) is Some
}

proof fn lemma_total_split_last(s: Seq<usize>)
    requires
        s.len() > 0,
    ensures
        total_cost(s) == total_cost(s.drop_last()) + s.last(),
    decreases s.len(),
{
    let df = s.drop_first();
    let dl = s.drop_last();
    if s.len() > 1 {
        lemma_total_split_last(df);
        assert(df.drop_last() =~= dl.drop_first());
        assert(df.last() == s.last());
        assert(dl[0] == s[0]);
        assert(total_cost(dl) == dl[0] + total_cost(dl.drop_first()));
    } else {
        assert(df.len() == 0);
        assert(dl.len() == 0);
        assert(total_cost(df) == 0);
        assert(total_cost(dl) == 0);
    }
}

/// When every record is counted and the total fits a `usize`, the catalog's
/// cost is the total of its records' costs.
proof fn lemma_catalog_cost_total(encoding: Encoding, s: Seq<Ctag>)
    requires
        all_counted(encoding, s),
        total_cost(counted_costs(encoding, s)) <= usize::MAX,
    ensures
        catalog_cost(encoding, s) == Some(total_cost(counted_costs(encoding, s)) as usize),
    decreases s.len(),
{
    if s.len() > 0 {
        let cs = counted_costs(encoding, s);
        lemma_total_split_last(cs);
        assert(counted_costs(encoding, s.drop_last()) =~= cs.drop_last());
        lemma_total_nonnegative(cs.drop_last());
        assert(all_counted(encoding, s.drop_last())) by {
            assert forall|i: int| 0 <= i < s.drop_last().len() implies #[trigger] record_cost(
                encoding,
                s.drop_last()[i],
            ) is Some by {
                assert(s.drop_last()[i] == s[i]);
            }
        }
        lemma_catalog_cost_total(encoding, s.drop_last());
        assert(record_cost(encoding, s[s.len() - 1]) is Some);
    } else {
        assert(counted_costs(encoding, s).len() == 0);
    }
}

/// A group costs at most the ceiling, or is a single record that alone
/// exceeds it.
pub open spec fn group_obeys_ceiling(encoding: Encoding, g: Seq<Ctag>, max_tokens: usize) -> bool {
    ||| (catalog_cost(encoding, g) is Some && catalog_cost(encoding, g)->0 <= max_tokens)
    ||| (g.len() == 1 && record_cost(encoding, g[0]) is Some && record_cost(encoding, g[0])->0
        > max_tokens)
}

proof fn lemma_counted_parts(encoding: Encoding, c: Seq<Ctag>, k: int)
    requires
        all_counted(encoding, c),
        0 <= k <= c.len(),
    ensures
        all_counted(encoding, c.take(k)),
        all_counted(encoding, c.skip(k)),
        counted_costs(encoding, c.take(k)) == counted_costs(encoding, c).take(k),
        counted_costs(encoding, c.skip(k)) == counted_costs(encoding, c).skip(k),
{
    assert(counted_costs(encoding, c.take(k)) =~= counted_costs(encoding, c).take(k));
    assert(counted_costs(encoding, c.skip(k)) =~= counted_costs(encoding, c).skip(k));
    assert forall|i: int| 0 <= i < c.take(k).len() implies #[trigger] record_cost(encoding, c.take(k)[i]) is Some by {
        assert(c.take(k)[i] == c[i]);
    }
    assert forall|i: int| 0 <= i < c.skip(k).len() implies #[trigger] record_cost(encoding, c.skip(k)[i]) is Some by {
        assert(c.skip(k)[i] == c[i + k]);
    }
}

proof fn lemma_first_group_obeys(encoding: Encoding, c: Seq<Ctag>, max_tokens: usize)
    requires
        all_counted(encoding, c),
        c.len() > 0,
    ensures
        group_obeys_ceiling(
            encoding,
            c.take(first_group_len(counted_costs(encoding, c), max_tokens) as int),
            max_tokens,
        ),
{
    let costs = counted_costs(encoding, c);
    lemma_first_group(costs, max_tokens);
    let k = first_group_len(costs, max_tokens) as int;
    let first = c.take(k);
    lemma_counted_parts(encoding, c, k);
    if total_cost(costs.take(k)) <= max_tokens {
        lemma_total_nonnegative(costs.take(k));
        lemma_catalog_cost_total(encoding, first);
        assert(catalog_cost(encoding, first)->0 == total_cost(costs.take(k)));
    } else {
        assert(k == 1 && costs[0] > max_tokens);
        assert(first.len() == 1);
        assert(first[0] == c[0]);
        assert(record_cost(encoding, c[0]) is Some);
        assert(costs[0] == record_cost(encoding, c[0])->0);
        assert(record_cost(encoding, first[0])->0 > max_tokens);
    }
}

proof fn lemma_groups_obey_ceiling(encoding: Encoding, c: Seq<Ctag>, max_tokens: usize)
    requires
        all_counted(encoding, c),
    ensures
        forall|i: int|
            0 <= i < greedy_groups(c, counted_costs(encoding, c), max_tokens).len() ==> {
                let g = #[trigger] greedy_groups(c, counted_costs(encoding, c), max_tokens)[i];
                &&& g.len() > 0
                &&& group_obeys_ceiling(encoding, g, max_tokens)
            },
    decreases c.len(),
{
    let costs = counted_costs(encoding, c);
    let g = greedy_groups(c, costs, max_tokens);
    if c.len() > 0 {
        lemma_first_group(costs, max_tokens);
        let k = first_group_len(costs, max_tokens) as int;
        lemma_counted_parts(encoding, c, k);
        let rest = c.skip(k);
        lemma_groups_obey_ceiling(encoding, rest, max_tokens);
        lemma_first_group_obeys(encoding, c, max_tokens);
        let gr = greedy_groups(rest, costs.skip(k), max_tokens);
        assert(g == seq![c.take(k)] + gr);
        assert forall|i: int| 0 <= i < g.len() implies {
            let gi = #[trigger] g[i];
            &&& gi.len() > 0
            &&& group_obeys_ceiling(encoding, gi, max_tokens)
        } by {
            if i > 0 {
                assert(g[i] == gr[i - 1]);
            }
        }
    }
}

/// The slicer's law over a catalog's own token costs, whenever every record
/// can be counted: the groups put back together give the catalog; every group
/// is non-empty and costs at most the ceiling, unless it is a single record
/// that alone exceeds it; and every such record forms a group of its own.
pub proof fn lemma_max_slices_law(encoding: Encoding, c: Seq<Ctag>, max_tokens: usize)
    requires
        all_counted(encoding, c),
    ensures
        greedy_groups(c, counted_costs(encoding, c), max_tokens).flatten() == c,
        forall|i: int|
            0 <= i < greedy_groups(c, counted_costs(encoding, c), max_tokens).len() ==> {
                let g = #[trigger] greedy_groups(c, counted_costs(encoding, c), max_tokens)[i];
                &&& g.len() > 0
                &&& group_obeys_ceiling(encoding, g, max_tokens)
            },
        forall|j: int|
            0 <= j < c.len() && #[trigger] counted_costs(encoding, c)[j] > max_tokens ==> exists|
                i: int,
            |
                0 <= i < greedy_groups(c, counted_costs(encoding, c), max_tokens).len()
                    && greedy_groups(c, counted_costs(encoding, c), max_tokens)[i] == seq![c[j]],
{
    let costs = counted_costs(encoding, c);
    let g = greedy_groups(c, costs, max_tokens);
    lemma_greedy_groups(c, costs, max_tokens);
    lemma_groups_obey_ceiling(encoding, c, max_tokens);
    assert forall|j: int| 0 <= j < c.len() && #[trigger] costs[j] > max_tokens implies exists|i: int|
        0 <= i < g.len() && g[i] == seq![c[j]] by {
        lemma_oversized_record_alone(c, costs, max_tokens, j);
    }
}

/// A record whose tokens could not be counted, by its position.
#[derive(Debug, PartialEq, Eq, Structural, Clone, Copy)]
pub enum TokenCountError {
    Uncountable { record: usize },
}

/// The number of tokens a value takes up in a model's context window.
pub trait TokensLen {
    spec fn token_cost(&self, encoding: Encoding) -> Option<usize>;

    fn token_len(&self, encoding: Encoding) -> (r: Option<usize>)
        ensures
            r == self.token_cost(encoding),
    ;
}

impl TokensLen for String {
    open spec fn token_cost(&self, encoding: Encoding) -> Option<usize> {
        token_count(encoding, self@)
    }

    fn token_len(&self, encoding: Encoding) -> (r: Option<usize>) {
        count_tokens(self.as_str(), encoding)
    }
}

impl TokensLen for Ctag {
    open spec fn token_cost(&self, encoding: Encoding) -> Option<usize> {
        record_cost(encoding, *self)
    }

    /// The tokens of the record's canonical serialised form.
    fn token_len(&self, encoding: Encoding) -> (r: Option<usize>) {
        let text = self.to_json();
        count_tokens(text.as_str(), encoding)
    }
}

proof fn lemma_cost_failure_persists(encoding: Encoding, s: Seq<Ctag>, n: int)
    requires
        0 <= n <= s.len(),
        catalog_cost(encoding, s.take(n)) is None,
    ensures
        catalog_cost(encoding, s) is None,
    decreases s.len() - n,
{
    if n == s.len() {
        assert(s.take(n) =~= s);
    } else {
        assert(s.take(n + 1).drop_last() =~= s.take(n));
        lemma_cost_failure_persists(encoding, s, n + 1);
    }
}

impl TokensLen for CtagsOutput {
    open spec fn token_cost(&self, encoding: Encoding) -> Option<usize> {
        catalog_cost(encoding, self@)
    }

    /// The sum of the records' token counts.
    fn token_len(&self, encoding: Encoding) -> (r: Option<usize>) {
        let mut total: usize = 0;
        let mut i: usize = 0;
        assert(self@.take(0) =~= Seq::<Ctag>::empty());
        while i < self.0.len()
            invariant
                i <= self.0.len(),
                catalog_cost(encoding, self@.take(i as int)) == Some(total),
            decreases self.0.len() - i,
        {
            proof {
                assert(self@.take(i + 1).drop_last() =~= self@.take(i as int));
                assert(self@.take(i + 1).last() == self@[i as int]);
            }
            match self.0[i].token_len(encoding) {
                Some(n) => {
                    if n > usize::MAX - total {
                        proof {
                            lemma_cost_failure_persists(encoding, self@, i + 1);
                        }
                        return None;
                    }
                    total = total + n;
                },
                None => {
                    proof {
                        lemma_cost_failure_persists(encoding, self@, i + 1);
                    }
                    return None;
                },
            }
            i = i + 1;
        }
        assert(self@.take(i as int) =~= self@);
        Some(total)
    }
}

/// The size of the group that starts at position `from`.
fn group_len_at(costs: &Vec<usize>, from: usize, ceiling: usize) -> (r: usize)
    requires
        from < costs.len(),
    ensures
        r == first_group_len(costs@.skip(from as int), ceiling),
{
    if costs[from] > ceiling {
        return 1;
    }
    let mut k: usize = 0;
    let mut total: usize = 0;
    while from + k < costs.len() && costs[from + k] <= ceiling - total
        invariant
            from + k <= costs.len(),
            total <= ceiling,
            fitting_prefix(costs@.skip(from as int), ceiling as int) == k + fitting_prefix(
                costs@.skip(from + k),
                ceiling - total,
            ),
        decreases costs.len() - from - k,
    {
        proof {
            assert(costs@.skip(from + k).drop_first() =~= costs@.skip(from + k + 1));
        }
        total = total + costs[from + k];
        k = k + 1;
    }
    proof {
        if from + k == costs.len() {
            assert(costs@.skip(from + k).len() == 0);
        }
    }
    k
}

pub open spec fn views_of(groups: Seq<CtagsOutput>) -> Seq<Seq<Ctag>> {
    groups.map_values(|g: CtagsOutput| g@)
}

impl CtagsOutput {
    /// The greedy partition of the catalog under `max_tokens`, where
    /// `costs[i]` is the token cost of the `i`-th record.
    pub fn slice_by_costs(&self, costs: &Vec<usize>, max_tokens: usize) -> (r: Vec<CtagsOutput>)
        requires
            costs@.len() == self@.len(),
        ensures
            views_of(r@) == greedy_groups(self@, costs@, max_tokens),
    {
        let n = self.len();
        let mut groups: Vec<CtagsOutput> = Vec::new();
        let mut pos: usize = 0;
        proof {
            assert(self@.skip(0) =~= self@);
            assert(costs@.skip(0) =~= costs@);
            assert(views_of(groups@) + greedy_groups(self@, costs@, max_tokens) =~= greedy_groups(
                self@,
                costs@,
                max_tokens,
            ));
        }
        while pos < n
            invariant
                pos <= n == self@.len() == costs@.len(),
                views_of(groups@) + greedy_groups(self@.skip(pos as int), costs@.skip(pos as int), max_tokens)
                    == greedy_groups(self@, costs@, max_tokens),
            decreases n - pos,
        {
            let k = group_len_at(costs, pos, max_tokens);
            proof {
                lemma_first_group(costs@.skip(pos as int), max_tokens);
            }
            let g = self.range(pos, pos + k);
            proof {
                let items = self@.skip(pos as int);
                let cs = costs@.skip(pos as int);
                assert(items.take(k as int) =~= self@.subrange(pos as int, pos + k));
                assert(items.skip(k as int) =~= self@.skip(pos + k));
                assert(cs.skip(k as int) =~= costs@.skip(pos + k));
                assert(views_of(groups@.push(g)) =~= views_of(groups@) + seq![g@]);
                assert(greedy_groups(items, cs, max_tokens) == seq![items.take(k as int)] + greedy_groups(
                    items.skip(k as int), cs.skip(k as int), max_tokens));
            }
            groups.push(g);
            pos = pos + k;
        }
        proof {
            assert(views_of(groups@) + greedy_groups(self@.skip(pos as int), costs@.skip(pos as int), max_tokens)
                == views_of(groups@) + Seq::<Seq<Ctag>>::empty());
            assert(views_of(groups@) + Seq::<Seq<Ctag>>::empty() =~= views_of(groups@));
        }
        groups
    }

    /// The token cost of each record, in order; or the first record that
    /// cannot be counted.
    pub fn record_costs(&self, encoding: Encoding) -> (r: Result<Vec<usize>, TokenCountError>)
        ensures
            match r {
                Ok(costs) => all_counted(encoding, self@) && costs@ == counted_costs(encoding, self@),
                Err(TokenCountError::Uncountable { record }) => first_uncounted(encoding, self@, record as int),
            },
    {
        let mut costs: Vec<usize> = Vec::new();
        let mut i: usize = 0;
        while i < self.0.len()
            invariant
                i <= self.0.len(),
                costs@.len() == i,
                forall|j: int| 0 <= j < i ==> #[trigger] record_cost(encoding, self@[j]) == Some(costs@[j]),
            decreases self.0.len() - i,
        {
            match self.0[i].token_len(encoding) {
                Some(n) => costs.push(n),
                None => {
                    return Err(TokenCountError::Uncountable { record: i });
                },
            }
            i = i + 1;
        }
        assert(costs@ =~= counted_costs(encoding, self@));
        Ok(costs)
    }

    /// Splits off the first group of the greedy partition under `max_tokens`:
    /// the longest prefix whose records' token costs sum to at most
    /// `max_tokens`, or the first record alone when it exceeds the ceiling by
    /// itself. The second catalog holds the rest. Fails when a record's tokens
    /// cannot be counted.
    pub fn max_slice(self, encoding: Encoding, max_tokens: usize) -> (r: Result<(CtagsOutput, CtagsOutput), TokenCountError>)
        ensures
            match r {
                Ok((taken, rest)) => {
                    &&& all_counted(encoding, self@)
                    &&& taken@ == self@.take(first_group_len(counted_costs(encoding, self@), max_tokens) as int)
                    &&& rest@ == self@.skip(first_group_len(counted_costs(encoding, self@), max_tokens) as int)
                },
                Err(TokenCountError::Uncountable { record }) => first_uncounted(encoding, self@, record as int),
            },
    {
        let n = self.len();
        let costs = match self.record_costs(encoding) {
            Ok(c) => c,
            Err(e) => {
                return Err(e);
            },
        };
        let k = if n == 0 {
            0
        } else {
            let k = group_len_at(&costs, 0, max_tokens);
            proof {
                assert(costs@.skip(0) =~= costs@);
                lemma_first_group(costs@, max_tokens);
            }
            k
        };
        let taken = self.range(0, k);
        let rest = self.range(k, n);
        proof {
            assert(taken@ =~= self@.take(k as int));
            assert(rest@ =~= self@.skip(k as int));
        }
        Ok((taken, rest))
    }

    /// The greedy partition of the catalog into groups whose records' token
    /// costs sum to at most `max_tokens`, a record over the ceiling standing
    /// alone; see `lemma_greedy_groups` for what the groups satisfy. Fails
    /// when a record's tokens cannot be counted.
    pub fn max_slices(self, encoding: Encoding, max_tokens: usize) -> (r: Result<Vec<CtagsOutput>, TokenCountError>)
        ensures
            match r {
                Ok(groups) => {
                    &&& all_counted(encoding, self@)
                    &&& views_of(groups@) == greedy_groups(self@, counted_costs(encoding, self@), max_tokens)
                },
                Err(TokenCountError::Uncountable { record }) => first_uncounted(encoding, self@, record as int),
            },
    {
        match self.record_costs(encoding) {
            Ok(costs) => Ok(self.slice_by_costs(&costs, max_tokens)),
            Err(e) => Err(e),
        }
    }
}

} // verus!
