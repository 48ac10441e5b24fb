use vstd::multiset::Multiset;
use vstd::prelude::*;

use crate::pattern::Pattern;

verus! {

broadcast use vstd::seq_lib::group_to_multiset_ensures;

/// The text of each line, in order.
pub open spec fn line_views(lines: Seq<String>) -> Seq<Seq<char>> {
    lines.map_values(|l: String| l@)
}

/// The lines that `p` selects, in their original order: those it finds a
/// match in, or with `invert` those it finds none in.
pub open spec fn selected(lines: Seq<Seq<char>>, p: Pattern, invert: bool) -> Seq<Seq<char>>
    decreases lines.len(),
{
    if lines.len() == 0 {
        seq![]
    } else {
        let rest = selected(lines.drop_last(), p, invert);
        if p.finds(lines.last()) != invert {
            rest.push(lines.last())
        } else {
            rest
        }
    }
}

/// Selecting with and without inversion splits the lines in two: every line
/// lands on exactly one side (the matching lines on one, the others on the
/// other), each side keeps the original order, and together the two sides hold
/// each line exactly as often as the input does.
pub proof fn lemma_invert_partitions(lines: Seq<Seq<char>>, p: Pattern)
    ensures
        selected(lines, p, false).len() + selected(lines, p, true).len() == lines.len(),
        forall|l: Seq<char>| #[trigger] selected(lines, p, false).contains(l) ==> p.finds(l),
        forall|l: Seq<char>| #[trigger] selected(lines, p, true).contains(l) ==> !p.finds(l),
        selected(lines, p, false).to_multiset().add(selected(lines, p, true).to_multiset())
            == lines.to_multiset(),
    decreases lines.len(),
{
    if lines.len() == 0 {
        assert(lines.to_multiset() =~= Multiset::empty());
        assert(selected(lines, p, false).to_multiset() =~= Multiset::empty());
        assert(selected(lines, p, true).to_multiset() =~= Multiset::empty());
    } else {
        let init = lines.drop_last();
        let last = lines.last();
        lemma_invert_partitions(init, p);
        assert(init.push(last) =~= lines);
        let a = selected(init, p, false);
        let b = selected(init, p, true);
        if p.finds(last) {
            assert forall|l: Seq<char>| #[trigger] a.push(last).contains(l) implies p.finds(l) by {
                if l != last {
                    let k = choose|k: int| 0 <= k < a.push(last).len() && a.push(last)[k] == l;
                    assert(a[k] == l);
                    assert(a.contains(l));
                }
            }
            assert(a.push(last).to_multiset().add(b.to_multiset()) =~= lines.to_multiset());
        } else {
            assert forall|l: Seq<char>| #[trigger] b.push(last).contains(l) implies !p.finds(l) by {
                if l != last {
                    let k = choose|k: int| 0 <= k < b.push(last).len() && b.push(last)[k] == l;
                    assert(b[k] == l);
                    assert(b.contains(l));
                }
            }
            assert(a.to_multiset().add(b.push(last).to_multiset()) =~= lines.to_multiset());
        }
    }
}

/// The lines whose match result differs from `invert`, in their original
/// order; `matched[i]` is the match result of `lines[i]`.
pub open spec fn kept(lines: Seq<Seq<char>>, matched: Seq<bool>, invert: bool) -> Seq<Seq<char>>
    decreases lines.len(),
{
    if lines.len() == 0 {
        seq![]
    } else {
        let rest = kept(lines.drop_last(), matched, invert);
        if matched[lines.len() - 1] != invert {
            rest.push(lines.last())
        } else {
            rest
        }
    }
}

proof fn lemma_kept_by_pattern(lines: Seq<Seq<char>>, matched: Seq<bool>, p: Pattern, invert: bool)
    requires
        matched.len() == lines.len(),
        forall|k: int| 0 <= k < lines.len() ==> matched[k] == p.finds(#[trigger] lines[k]),
    ensures
        kept(lines, matched, invert) == selected(lines, p, invert),
    decreases lines.len(),
{
    if lines.len() > 0 {
        let init = lines.drop_last();
        let flags = matched.drop_last();
        assert forall|k: int| 0 <= k < init.len() implies flags[k] == p.finds(#[trigger] init[k]) by {
            assert(init[k] == lines[k]);
        }
        lemma_kept_by_pattern(init, flags, p, invert);
        lemma_kept_prefix(init, matched, flags, invert);
    }
}

proof fn lemma_kept_prefix(lines: Seq<Seq<char>>, a: Seq<bool>, b: Seq<bool>, invert: bool)
    requires
        lines.len() <= a.len(),
        lines.len() <= b.len(),
        forall|k: int| 0 <= k < lines.len() ==> a[k] == b[k],
    ensures
        kept(lines, a, invert) == kept(lines, b, invert),
    decreases lines.len(),
{
    if lines.len() > 0 {
        lemma_kept_prefix(lines.drop_last(), a, b, invert);
    }
}

/// Keeps, in order, each line whose match result `matched[i]` differs from
/// `invert_match`: the matching lines, or with `invert_match` the others.
pub fn select_lines(lines: &Vec<String>, matched: &Vec<bool>, invert_match: bool) -> (r: Vec<String>)
    requires
        matched.len() == lines.len(),
    ensures
        line_views(r@) == kept(line_views(lines@), matched@, invert_match),
{
    let mut result: Vec<String> = Vec::new();
    let mut i: usize = 0;
    while i < lines.len()
        invariant
            i <= lines.len(),
            matched.len() == lines.len(),
            line_views(result@) == kept(line_views(lines@).take(i as int), matched@, invert_match),
        decreases lines.len() - i,
    {
        let line = &lines[i];
        proof {
            let all = line_views(lines@);
            assert(all.take(i as int + 1).drop_last() =~= all.take(i as int));
            assert(all.take(i as int + 1).last() == line@);
        }
        if matched[i] != invert_match {
            let ghost before = result@;
            result.push(line.clone());
            assert(line_views(result@) =~= line_views(before).push(line@));
        }
        i = i + 1;
    }
    assert(line_views(lines@).take(lines.len() as int) =~= line_views(lines@));
    result
}

/// Keeps, in order, each line in which `pattern` finds a match, or with
/// `invert_match` each line in which it finds none.
pub fn find_lines(lines: &Vec<String>, pattern: &Pattern, invert_match: bool) -> (r: Vec<String>)
    ensures
        line_views(r@) == selected(line_views(lines@), *pattern, invert_match),
{
    let mut matched: Vec<bool> = Vec::new();
    let mut i: usize = 0;
    while i < lines.len()
        invariant
            i <= lines.len(),
            matched.len() == i,
            forall|k: int| 0 <= k < i ==> matched@[k] == pattern.finds(#[trigger] line_views(lines@)[k]),
        decreases lines.len() - i,
    {
        matched.push(pattern.is_match(lines[i].as_str()));
        i = i + 1;
    }
    proof {
        lemma_kept_by_pattern(line_views(lines@), matched@, *pattern, invert_match);
    }
    select_lines(lines, &matched, invert_match)
}

} // verus!
