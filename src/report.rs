use vstd::prelude::*;

use crate::filter::{line_views, selected};
use crate::pattern::Pattern;

verus! {

/// The decimal digit for `d < 10`.
pub open spec fn digit_char(d: nat) -> char {
    if d == 0 {
        '0'
    } else if d == 1 {
        '1'
    } else if d == 2 {
        '2'
    } else if d == 3 {
        '3'
    } else if d == 4 {
        '4'
    } else if d == 5 {
        '5'
    } else if d == 6 {
        '6'
    } else if d == 7 {
        '7'
    } else if d == 8 {
        '8'
    } else {
        '9'
    }
}

/// `n` written in decimal, without leading zeros.
pub open spec fn decimal(n: nat) -> Seq<char>
    decreases n,
{
    if n < 10 {
        seq![digit_char(n)]
    } else {
        decimal(n / 10).push(digit_char(n % 10))
    }
}

fn digit_text(d: usize) -> (r: &'static str)
    requires
        d < 10,
    ensures
        r@ == seq![digit_char(d as nat)],
{
    proof {
        reveal_strlit("0");
        reveal_strlit("1");
        reveal_strlit("2");
        reveal_strlit("3");
        reveal_strlit("4");
        reveal_strlit("5");
        reveal_strlit("6");
        reveal_strlit("7");
        reveal_strlit("8");
        reveal_strlit("9");
    }
    let r = if d == 0 {
        "0"
    } else if d == 1 {
        "1"
    } else if d == 2 {
        "2"
    } else if d == 3 {
        "3"
    } else if d == 4 {
        "4"
    } else if d == 5 {
        "5"
    } else if d == 6 {
        "6"
    } else if d == 7 {
        "7"
    } else if d == 8 {
        "8"
    } else {
        "9"
    };
    assert(r@ =~= seq![digit_char(d as nat)]);
    r
}

proof fn lemma_decimal_nonempty(n: nat)
    ensures
        decimal(n).len() >= 1,
        n >= 10 ==> decimal(n).len() >= 2,
    decreases n,
{
    if n >= 10 {
        lemma_decimal_nonempty(n / 10);
    }
}

/// Distinct numbers are written differently.
pub proof fn lemma_decimal_injective(a: nat, b: nat)
    requires
        decimal(a) == decimal(b),
    ensures
        a == b,
    decreases a,
{
    lemma_decimal_nonempty(a);
    lemma_decimal_nonempty(b);
    if a >= 10 && b >= 10 {
        assert(decimal(a).drop_last() =~= decimal(a / 10));
        assert(decimal(b).drop_last() =~= decimal(b / 10));
        lemma_decimal_injective(a / 10, b / 10);
        assert(decimal(a).last() == digit_char(a % 10));
        assert(decimal(b).last() == digit_char(b % 10));
        assert(a % 10 == b % 10);
    } else if a < 10 && b < 10 {
        assert(decimal(a)[0] == digit_char(a));
        assert(decimal(b)[0] == digit_char(b));
    }
}

/// Writes `n` in decimal.
pub fn decimal_text(n: usize) -> (r: String)
    ensures
        r@ == decimal(n as nat),
    decreases n,
{
    if n < 10 {
        String::from_str(digit_text(n))
    } else {
        let head = decimal_text(n / 10);
        let r = head.concat(digit_text(n % 10));
        assert(r@ =~= decimal(n as nat));
        r
    }
}

/// Whether output lines carry their file's path: when the run has more than
/// one discovery result, counting failures too.
pub open spec fn uses_prefix(n_entries: nat) -> bool {
    n_entries > 1
}

/// What stands before each output line of the file at `path`.
pub open spec fn prefix_for(path: Seq<char>, prefixed: bool) -> Seq<char> {
    if prefixed {
        path + ":"@
    } else {
        seq![]
    }
}

/// The output lines for one file whose selected lines are `matches`: their
/// number alone in count mode, else each selected line; either way behind the
/// prefix.
pub open spec fn entry_report(path: Seq<char>, matches: Seq<Seq<char>>, count: bool, prefixed: bool) -> Seq<Seq<char>> {
    if count {
        seq![prefix_for(path, prefixed) + decimal(matches.len())]
    } else {
        matches.map_values(|m: Seq<char>| prefix_for(path, prefixed) + m)
    }
}

/// In count mode the one line reported for a file is its prefix and the
/// number of selected lines, in decimal; where selection left some line out,
/// that line never shows the number of all the file's lines.
pub proof fn lemma_count_reports_selected(
    path: Seq<char>,
    lines: Seq<Seq<char>>,
    p: Pattern,
    invert: bool,
    prefixed: bool,
)
    ensures
        entry_report(path, selected(lines, p, invert), true, prefixed) == seq![
            prefix_for(path, prefixed) + decimal(selected(lines, p, invert).len()),
        ],
        selected(lines, p, invert).len() != lines.len() ==> entry_report(
            path,
            selected(lines, p, invert),
            true,
            prefixed,
        ) != seq![prefix_for(path, prefixed) + decimal(lines.len())],
{
    let pre = prefix_for(path, prefixed);
    let n = selected(lines, p, invert).len();
    if entry_report(path, selected(lines, p, invert), true, prefixed) == seq![pre + decimal(lines.len())] {
        assert((pre + decimal(n)).subrange(pre.len() as int, (pre + decimal(n)).len() as int) =~= decimal(n));
        assert((pre + decimal(lines.len())).subrange(
            pre.len() as int,
            (pre + decimal(lines.len())).len() as int,
        ) =~= decimal(lines.len()));
        assert(seq![pre + decimal(n)][0] == seq![pre + decimal(lines.len())][0]);
        lemma_decimal_injective(n, lines.len());
    }
}

/// Whether a run with `n_entries` discovery results prefixes its output lines
/// with the path of their file.
pub fn prefix_paths(n_entries: usize) -> (r: bool)
    ensures
        r == uses_prefix(n_entries as nat),
{
    n_entries > 1
}

/// The output lines for the file at `path`, one of `n_entries` discovery
/// results, whose selected lines are `matches`.
pub fn report_entry(path: &str, matches: &Vec<String>, count: bool, n_entries: usize) -> (r: Vec<String>)
    ensures
        line_views(r@) == entry_report(path@, line_views(matches@), count, uses_prefix(n_entries as nat)),
{
    let prefixed = prefix_paths(n_entries);
    let ghost pre = prefix_for(path@, prefixed);
    let prefix = if prefixed {
        String::from_str(path).concat(":")
    } else {
        String::new()
    };
    assert(prefix@ == pre);
    let mut out: Vec<String> = Vec::new();
    if count {
        out.push(prefix.concat(decimal_text(matches.len()).as_str()));
        assert(line_views(out@) =~= entry_report(path@, line_views(matches@), count, prefixed));
        return out;
    }
    let mut i: usize = 0;
    while i < matches.len()
        invariant
            i <= matches.len(),
            prefix@ == pre,
            line_views(out@) =~= line_views(matches@).take(i as int).map_values(|m: Seq<char>| pre + m),
        decreases matches.len() - i,
    {
        let line = prefix.clone().concat(matches[i].as_str());
        let ghost before = out@;
        out.push(line);
        assert(line_views(out@) =~= line_views(before).push(line@));
        assert(line_views(matches@).take(i + 1) =~= line_views(matches@).take(i as int).push(matches@[i as int]@));
        i = i + 1;
    }
    assert(line_views(matches@).take(matches.len() as int) =~= line_views(matches@));
    out
}

} // verus!
