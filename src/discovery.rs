use vstd::prelude::*;

use crate::error::GrepError;

verus! {

/// One item of a walk of the file tree under an input path, in walk order.
/// The walk reports the input path itself first.
#[derive(Debug)]
pub enum WalkEntry {
    /// A directory, by its full path.
    Directory(String),
    /// Anything that is not a directory, by its full path.
    File(String),
    /// The walk could not access an entry; carries its description.
    Failure(String),
}

/// A discovery result as the user sees it: the path found, or the message
/// reported.
pub open spec fn result_view(r: Result<String, GrepError>) -> Result<Seq<char>, Seq<char>> {
    match r {
        Ok(p) => Ok(p@),
        Err(e) => Err(e.message()),
    }
}

/// The discovery results as the user sees them, in order.
pub open spec fn result_views(rs: Seq<Result<String, GrepError>>) -> Seq<Result<Seq<char>, Seq<char>>> {
    rs.map_values(|r: Result<String, GrepError>| result_view(r))
}

/// Whether `e` ends the walk of its input path: a directory met while
/// recursion is off.
pub open spec fn ends_root(e: WalkEntry, recursive: bool) -> bool {
    !recursive && e is Directory
}

/// What a single walk entry contributes to the results.
pub open spec fn entry_outcome(e: WalkEntry, recursive: bool) -> Seq<Result<Seq<char>, Seq<char>>> {
    match e {
        WalkEntry::Failure(m) => seq![Err(m@)],
        WalkEntry::File(p) => seq![Ok(p@)],
        WalkEntry::Directory(p) => if recursive {
            seq![]
        } else {
            seq![Err(p@ + " is a directory"@)]
        },
    }
}

/// Whether some entry of `es` ends the walk.
pub open spec fn walk_ended(es: Seq<WalkEntry>, recursive: bool) -> bool {
    exists|i: int| 0 <= i < es.len() && ends_root(#[trigger] es[i], recursive)
}

/// The results of one input path's walk: each entry contributes its
/// outcome, up to and including the first entry that ends the walk.
pub open spec fn root_outcome(es: Seq<WalkEntry>, recursive: bool) -> Seq<Result<Seq<char>, Seq<char>>>
    decreases es.len(),
{
    if es.len() == 0 {
        seq![]
    } else if walk_ended(es.drop_last(), recursive) {
        root_outcome(es.drop_last(), recursive)
    } else {
        root_outcome(es.drop_last(), recursive) + entry_outcome(es.last(), recursive)
    }
}

/// Entries after the one that ends the walk change nothing.
proof fn lemma_ended_walk_is_final(es: Seq<WalkEntry>, n: int, recursive: bool)
    requires
        0 < n <= es.len(),
        ends_root(es[n - 1], recursive),
    ensures
        root_outcome(es, recursive) == root_outcome(es.take(n), recursive),
    decreases es.len(),
{
    if es.len() > n {
        let init = es.drop_last();
        assert(init.take(n) =~= es.take(n));
        assert(init[n - 1] == es[n - 1]);
        lemma_ended_walk_is_final(init, n, recursive);
        assert(walk_ended(init, recursive));
    } else {
        assert(es.take(n) =~= es);
    }
}

/// A directory given while recursion is off yields exactly one result, the
/// failure "<path> is a directory", and nothing from inside it, whatever the
/// walk would have gone on to report.
pub proof fn lemma_directory_refused(dir: String, inside: Seq<WalkEntry>)
    ensures
        root_outcome(seq![WalkEntry::Directory(dir)] + inside, false) == seq![
            Err::<Seq<char>, Seq<char>>(dir@ + " is a directory"@),
        ],
{
    let es = seq![WalkEntry::Directory(dir)] + inside;
    lemma_ended_walk_is_final(es, 1, false);
    let first = es.take(1);
    assert(first.drop_last() =~= Seq::<WalkEntry>::empty());
    assert(!walk_ended(first.drop_last(), false));
    assert(root_outcome(first.drop_last(), false) =~= seq![]);
    assert(first.last() == WalkEntry::Directory(dir));
    assert(root_outcome(first, false) =~= seq![
        Err::<Seq<char>, Seq<char>>(dir@ + " is a directory"@),
    ]);
}

/// The paths of the files among `es`, in walk order, each as found.
pub open spec fn found_files(es: Seq<WalkEntry>) -> Seq<Result<Seq<char>, Seq<char>>>
    decreases es.len(),
{
    if es.len() == 0 {
        seq![]
    } else {
        found_files(es.drop_last()) + match es.last() {
            WalkEntry::File(p) => seq![Ok(p@)],
            _ => seq![],
        }
    }
}

/// A recursive walk that meets no access failure yields one found path per
/// file it visits, and no failure at all: directories contribute nothing.
pub proof fn lemma_recursive_finds_every_file(es: Seq<WalkEntry>)
    requires
        forall|i: int| 0 <= i < es.len() ==> !(#[trigger] es[i] is Failure),
    ensures
        root_outcome(es, true) == found_files(es),
        forall|k: int| 0 <= k < root_outcome(es, true).len() ==> #[trigger] root_outcome(es, true)[k] is Ok,
    decreases es.len(),
{
    if es.len() > 0 {
        let init = es.drop_last();
        assert forall|i: int| 0 <= i < init.len() implies !(#[trigger] init[i] is Failure) by {
            assert(init[i] == es[i]);
        }
        lemma_recursive_finds_every_file(init);
        assert(!(es.last() is Failure));
        assert(root_outcome(es, true) =~= found_files(es));
        let r = root_outcome(es, true);
        assert forall|k: int| 0 <= k < r.len() implies #[trigger] r[k] is Ok by {
            if k < root_outcome(init, true).len() {
                assert(r[k] == root_outcome(init, true)[k]);
            }
        }
    }
}

/// A path whose walk reports only a failure to access it (a path that does
/// not exist) yields exactly one result: that failure, with the walk's own
/// description.
pub proof fn lemma_inaccessible_path(message: String, recursive: bool)
    ensures
        root_outcome(seq![WalkEntry::Failure(message)], recursive) == seq![
            Err::<Seq<char>, Seq<char>>(message@),
        ],
{
    let es = seq![WalkEntry::Failure(message)];
    assert(es.drop_last() =~= Seq::<WalkEntry>::empty());
    assert(!walk_ended(es.drop_last(), recursive));
    assert(root_outcome(es.drop_last(), recursive) =~= seq![]);
    assert(root_outcome(es, recursive) =~= seq![Err::<Seq<char>, Seq<char>>(message@)]);
}

/// Records the outcome of one walk entry; answers whether the walk of the
/// current input path goes on.
pub fn visit_entry(results: &mut Vec<Result<String, GrepError>>, entry: &WalkEntry, recursive: bool) -> (keep_walking: bool)
    ensures
        result_views(final(results)@) == result_views(old(results)@) + entry_outcome(*entry, recursive),
        keep_walking == !ends_root(*entry, recursive),
{
    let ghost before = results@;
    match entry {
        WalkEntry::Failure(m) => {
            results.push(Err(GrepError::Access(m.clone())));
            assert(result_views(results@) =~= result_views(before) + entry_outcome(*entry, recursive));
            true
        },
        WalkEntry::File(p) => {
            results.push(Ok(p.clone()));
            assert(result_views(results@) =~= result_views(before) + entry_outcome(*entry, recursive));
            true
        },
        WalkEntry::Directory(p) => {
            if recursive {
                assert(result_views(results@) =~= result_views(before) + entry_outcome(*entry, recursive));
                true
            } else {
                results.push(Err(GrepError::IsDirectory(p.clone())));
                assert(result_views(results@) =~= result_views(before) + entry_outcome(*entry, recursive));
                false
            }
        },
    }
}

/// The results of one input path, from its walk's entries in walk order.
pub fn resolve_root(entries: &Vec<WalkEntry>, recursive: bool) -> (r: Vec<Result<String, GrepError>>)
    ensures
        result_views(r@) == root_outcome(entries@, recursive),
{
    let mut results: Vec<Result<String, GrepError>> = Vec::new();
    let mut i: usize = 0;
    assert(entries@.take(entries.len() as int) =~= entries@);
    while i < entries.len()
        invariant_except_break
            i <= entries.len(),
            !walk_ended(entries@.take(i as int), recursive),
            result_views(results@) == root_outcome(entries@.take(i as int), recursive),
        invariant
            entries@.take(entries.len() as int) == entries@,
        ensures
            result_views(results@) == root_outcome(entries@, recursive),
        decreases entries.len() - i,
    {
        let ghost es = entries@;
        assert(es.take(i + 1).drop_last() =~= es.take(i as int));
        let go = visit_entry(&mut results, &entries[i], recursive);
        i = i + 1;
        if !go {
            proof {
                lemma_ended_walk_is_final(es, i as int, recursive);
            }
            break;
        }
        assert forall|k: int| 0 <= k < es.take(i as int).len() implies !ends_root(
            #[trigger] es.take(i as int)[k],
            recursive,
        ) by {
            if k < i - 1 {
                assert(es.take(i as int)[k] == es.take(i - 1)[k]);
            }
        }
    }
    results
}

} // verus!
