use vstd::prelude::*;
use vstd::multiset::Multiset;

use crate::ScanError;
use crate::gate::ConcurrencyGate;
use crate::tree::{compute_size, node_ok, node_size, FsChild};

verus! {

/// One ranked result: a top-level child's base name and its total byte
/// size, recursively summed.
pub struct Entry {
    pub name: String,
    pub size: u64,
}

/// The spec-level content of one ranked entry.
pub open spec fn entry_view(e: Entry) -> (Seq<char>, u64) {
    (e.name@, e.size)
}

/// The spec-level contents of a report, in order.
pub open spec fn views_of(s: Seq<Entry>) -> Seq<(Seq<char>, u64)> {
    s.map_values(|e: Entry| entry_view(e))
}

/// What one listed child contributes to the report: its name and byte sum
/// when its whole subtree could be read and summed, nothing otherwise.
pub open spec fn child_result(c: FsChild) -> Option<(Seq<char>, u64)> {
    if node_ok(c.node) && node_size(c.node) <= u64::MAX {
        Some((c.name@, node_size(c.node) as u64))
    } else {
        None
    }
}

/// The pairs that a scan of these children must report, in listing order:
/// exactly the children whose size could be computed.
pub open spec fn results_of(s: Seq<FsChild>) -> Seq<(Seq<char>, u64)>
    decreases s.len(),
{
    if s.len() == 0 {
        Seq::empty()
    } else {
        results_of(s.drop_last()) + (match child_result(s.last()) {
            Some(p) => seq![p],
            None => Seq::empty(),
        })
    }
}

/// Sorted by size, largest first; ties may stand in any order.
pub open spec fn sorted_desc(s: Seq<Entry>) -> bool {
    forall|i: int, j: int|
        0 <= i <= j < s.len() ==> #[trigger] s[i].size >= #[trigger] s[j].size
}

/// The outcome of listing the immediate children of the root path, as the
/// surrounding I/O layer hands it in.
pub enum DirListing {
    /// The root path does not exist.
    Missing,
    /// The root listing failed for another reason (permission, not a
    /// directory, ...).
    Unreadable,
    /// The immediate children, in listing order.
    Children(Vec<FsChild>),
}

proof fn lemma_insert_to_multiset<A>(s: Seq<A>, i: int, a: A)
    requires
        0 <= i <= s.len(),
    ensures
        s.insert(i, a).to_multiset() == s.to_multiset().insert(a),
{
    broadcast use vstd::seq_lib::group_to_multiset_ensures;
    broadcast use vstd::multiset::group_multiset_axioms;

    let t = s.insert(i, a);
    s.insert_ensures(i, a);
    assert(t.remove(i) =~= s);
    assert(t[i] == a);
    assert(t.contains(a));
    assert(t.to_multiset().count(a) > 0);
    assert(t.remove(i).to_multiset() =~= t.to_multiset().remove(a));
    assert forall|x: A| t.to_multiset().count(x) == s.to_multiset().insert(a).count(x) by {
        if x == a {
            assert(s.to_multiset().count(a) == t.to_multiset().count(a) - 1);
        } else {
            assert(s.to_multiset().count(x) == t.to_multiset().count(x));
        }
    }
    assert(t.to_multiset() =~= s.to_multiset().insert(a));
}

/// Places one entry into an already ranked report, keeping it ranked.
fn insert_ranked(out: &mut Vec<Entry>, e: Entry)
    requires
        sorted_desc(old(out)@),
    ensures
        sorted_desc(final(out)@),
        views_of(final(out)@).to_multiset() == views_of(old(out)@).to_multiset().insert(
            entry_view(e),
        ),
{
    let mut pos: usize = 0;
    while pos < out.len() && out[pos].size >= e.size
        invariant
            pos <= out@.len(),
            forall|k: int| 0 <= k < pos ==> (#[trigger] out@[k].size) >= e.size,
            out@ == old(out)@,
        decreases out@.len() - pos,
    {
        pos = pos + 1;
    }
    proof {
        old(out)@.insert_ensures(pos as int, e);
        lemma_insert_to_multiset(views_of(old(out)@), pos as int, entry_view(e));
        assert(views_of(old(out)@.insert(pos as int, e)) =~= views_of(old(out)@).insert(
            pos as int,
            entry_view(e),
        ));
    }
    out.insert(pos, e);
}

/// Sorts a collection of entries by size, largest first, keeping exactly
/// the same entries.
#[verifier::loop_isolation(false)]
pub fn rank_entries(entries: Vec<Entry>) -> (r: Vec<Entry>)
    ensures
        sorted_desc(r@),
        views_of(r@).to_multiset() == views_of(entries@).to_multiset(),
{
    broadcast use vstd::seq_lib::group_to_multiset_ensures;
    broadcast use vstd::multiset::group_multiset_axioms;

    let ghost orig = entries@;
    let mut remaining = entries;
    let mut out: Vec<Entry> = Vec::new();
    proof {
        assert(views_of(out@).to_multiset().add(views_of(remaining@).to_multiset())
            =~= views_of(orig).to_multiset());
    }
    while remaining.len() > 0
        invariant
            sorted_desc(out@),
            views_of(out@).to_multiset().add(views_of(remaining@).to_multiset()) == views_of(
                orig,
            ).to_multiset(),
        decreases remaining@.len(),
    {
        let ghost pre = remaining@;
        let e = remaining.pop().unwrap();
        proof {
            assert(pre.drop_last() =~= pre.remove(pre.len() - 1));
            assert(views_of(pre.remove(pre.len() - 1)) =~= views_of(pre).remove(pre.len() - 1));
            assert(views_of(pre).remove(views_of(pre).len() - 1).to_multiset() =~= views_of(
                pre,
            ).to_multiset().remove(entry_view(e)));
            assert(views_of(pre).to_multiset().count(entry_view(e)) > 0) by {
                assert(views_of(pre)[views_of(pre).len() - 1] == entry_view(e));
                assert(views_of(pre).contains(entry_view(e)));
            }
        }
        insert_ranked(&mut out, e);
        proof {
            assert(views_of(out@).to_multiset().add(views_of(remaining@).to_multiset())
                =~= views_of(orig).to_multiset());
        }
    }
    proof {
        assert(views_of(remaining@).to_multiset() =~= Multiset::empty());
        assert(views_of(out@).to_multiset() =~= views_of(orig).to_multiset());
    }
    out
}

/// Scans the listed children of the root: dispatches one size computation
/// per child through the concurrency gate, drops every child whose subtree
/// could not be read or summed, and ranks the rest by size, largest first.
/// Only a failed root listing or an invalid concurrency bound fails the
/// whole scan.
#[verifier::loop_isolation(false)]
pub fn scan(root: DirListing, max_concurrency: u8) -> (r: Result<Vec<Entry>, ScanError>)
    ensures
        max_concurrency == 0 ==> r == Err::<Vec<Entry>, ScanError>(ScanError::Config),
        max_concurrency >= 1 ==> match root {
            DirListing::Missing => r == Err::<Vec<Entry>, ScanError>(ScanError::NotFound),
            DirListing::Unreadable => r == Err::<Vec<Entry>, ScanError>(ScanError::Io),
            DirListing::Children(cs) => r is Ok && sorted_desc(r->Ok_0@) && views_of(
                r->Ok_0@,
            ).to_multiset() == results_of(cs@).to_multiset(),
        },
{
    let mut gate = match ConcurrencyGate::new(max_concurrency) {
        Ok(g) => g,
        Err(e) => {
            return Err(e);
        },
    };
    match root {
        DirListing::Missing => Err(ScanError::NotFound),
        DirListing::Unreadable => Err(ScanError::Io),
        DirListing::Children(cs) => {
            let mut collected: Vec<Entry> = Vec::new();
            let mut i: usize = 0;
            proof {
                assert(views_of(collected@) =~= results_of(cs@.take(0)));
            }
            while i < cs.len()
                invariant
                    i <= cs@.len(),
                    gate.wf(),
                    gate.spec_live() == 0,
                    gate.spec_ceiling() == max_concurrency as int,
                    views_of(collected@) == results_of(cs@.take(i as int)),
                decreases cs@.len() - i,
            {
                gate.acquire();
                let computed = compute_size(&cs[i].node);
                gate.release();
                let ghost pre = collected@;
                match computed {
                    Ok(size) => {
                        let name = cs[i].name.clone();
                        collected.push(Entry { name, size });
                    },
                    Err(_) => {},
                }
                proof {
                    assert(cs@.take(i + 1).drop_last() =~= cs@.take(i as int));
                    assert(cs@.take(i + 1).last() == cs@[i as int]);
                    match child_result(cs@[i as int]) {
                        Some(p) => {
                            assert(views_of(collected@) =~= views_of(pre).push(p));
                            assert(views_of(collected@) =~= results_of(cs@.take(i + 1)));
                        },
                        None => {
                            assert(views_of(collected@) =~= results_of(cs@.take(i + 1)));
                        },
                    }
                }
                i = i + 1;
            }
            proof {
                assert(cs@.take(cs@.len() as int) =~= cs@);
            }
            Ok(rank_entries(collected))
        },
    }
}

/// Scanning the same unchanged tree twice yields the same collection of
/// (name, size) pairs, however ties are ordered: any two reports of one
/// child list carry equal contents.
pub proof fn lemma_scan_idempotent(cs: Seq<FsChild>, r1: Seq<Entry>, r2: Seq<Entry>)
    requires
        views_of(r1).to_multiset() == results_of(cs).to_multiset(),
        views_of(r2).to_multiset() == results_of(cs).to_multiset(),
    ensures
        views_of(r1).to_multiset() == views_of(r2).to_multiset(),
{
}

} // verus!
