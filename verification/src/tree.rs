use vstd::prelude::*;

use crate::ScanError;

verus! {

/// One filesystem entry as the scanner sees it: a regular file with its
/// byte length, a directory with its listed children, or an entry whose
/// metadata or listing could not be read.
pub enum FsNode {
    File(u64),
    Dir(Vec<FsChild>),
    Unreadable,
}

/// A named entry inside a directory.
pub struct FsChild {
    pub name: String,
    pub node: FsNode,
}

/// Whether every entry in the subtree could be read. A read failure
/// anywhere inside a subtree spoils the whole subtree's sum.
pub open spec fn node_ok(n: FsNode) -> bool
    decreases n,
{
    match n {
        FsNode::File(_) => true,
        FsNode::Dir(cs) => children_ok(cs@),
        FsNode::Unreadable => false,
    }
}

/// Whether every subtree in a list of children could be read.
pub open spec fn children_ok(s: Seq<FsChild>) -> bool
    decreases s,
{
    if s.len() == 0 {
        true
    } else {
        children_ok(s.drop_last()) && node_ok(s.last().node)
    }
}

/// The total byte size of a subtree: a file counts its own length, a
/// directory the sum over its children. An unreadable entry counts zero,
/// but its sum is never reported: see `compute_size`.
pub open spec fn node_size(n: FsNode) -> int
    decreases n,
{
    match n {
        FsNode::File(len) => len as int,
        FsNode::Dir(cs) => children_size(cs@),
        FsNode::Unreadable => 0,
    }
}

/// The sum of the subtree sizes of a list of children.
pub open spec fn children_size(s: Seq<FsChild>) -> int
    decreases s,
{
    if s.len() == 0 {
        0
    } else {
        children_size(s.drop_last()) + node_size(s.last().node)
    }
}

pub proof fn lemma_node_size_nonneg(n: FsNode)
    ensures
        node_size(n) >= 0,
    decreases n,
{
    match n {
        FsNode::File(_) => {}
        FsNode::Dir(cs) => {
            lemma_children_size_nonneg(cs@);
        }
        FsNode::Unreadable => {}
    }
}

pub proof fn lemma_children_size_nonneg(s: Seq<FsChild>)
    ensures
        children_size(s) >= 0,
    decreases s,
{
    if s.len() > 0 {
        lemma_children_size_nonneg(s.drop_last());
        lemma_node_size_nonneg(s.last().node);
    }
}

/// A prefix of a child list never sums to more than the whole list.
pub proof fn lemma_children_size_take_le(s: Seq<FsChild>, i: int)
    requires
        0 <= i <= s.len(),
    ensures
        children_size(s.take(i)) <= children_size(s),
    decreases s.len(),
{
    if i == s.len() {
        assert(s.take(i) =~= s);
    } else {
        assert(s.take(i) =~= s.drop_last().take(i));
        lemma_children_size_take_le(s.drop_last(), i);
        lemma_node_size_nonneg(s.last().node);
    }
}

/// No single child sums to more than the whole list.
pub proof fn lemma_child_size_le(s: Seq<FsChild>, i: int)
    requires
        0 <= i < s.len(),
    ensures
        node_size(s[i].node) <= children_size(s),
    decreases s.len(),
{
    if i == s.len() - 1 {
        lemma_children_size_nonneg(s.drop_last());
    } else {
        lemma_child_size_le(s.drop_last(), i);
        lemma_node_size_nonneg(s.last().node);
    }
}

/// A child list reads whole exactly when each of its subtrees does.
pub proof fn lemma_children_ok_index(s: Seq<FsChild>)
    ensures
        children_ok(s) <==> (forall|i: int|
            0 <= i < s.len() ==> node_ok(#[trigger] s[i].node)),
    decreases s.len(),
{
    if s.len() > 0 {
        lemma_children_ok_index(s.drop_last());
        if children_ok(s.drop_last()) && node_ok(s.last().node) {
            assert forall|i: int| 0 <= i < s.len() implies node_ok(#[trigger] s[i].node) by {
                if i < s.len() - 1 {
                    assert(s.drop_last()[i] == s[i]);
                }
            }
        }
    }
}

/// Computes the total byte size of one subtree, exactly when every entry
/// in it could be read and the sum fits in 64 bits; a failure anywhere in
/// the subtree fails the whole sum, with no partial result.
#[verifier::loop_isolation(false)]
pub fn compute_size(n: &FsNode) -> (r: Result<u64, ScanError>)
    ensures
        r is Ok <==> node_ok(*n) && node_size(*n) <= u64::MAX,
        r is Ok ==> r->Ok_0 == node_size(*n),
        r is Err ==> r->Err_0 == ScanError::Io,
    decreases *n,
{
    match n {
        FsNode::File(len) => Ok(*len),
        FsNode::Unreadable => Err(ScanError::Io),
        FsNode::Dir(children) => {
            let mut sum: u64 = 0;
            let mut i: usize = 0;
            while i < children.len()
                invariant
                    i <= children@.len(),
                    children_ok(children@.take(i as int)),
                    sum == children_size(children@.take(i as int)),
                decreases children@.len() - i,
            {
                proof {
                    assert((*n)->Dir_0 == *children);
                    assert(decreases_to!(*n => (*n)->Dir_0));
                    assert(decreases_to!(*children => children@));
                    assert(decreases_to!(children@ => children@[i as int]));
                    assert(decreases_to!(children@[i as int] => children@[i as int].node));
                }
                let child_size = match compute_size(&children[i].node) {
                    Ok(size) => size,
                    Err(e) => {
                        proof {
                            lemma_children_ok_index(children@);
                            lemma_child_size_le(children@, i as int);
                        }
                        return Err(e);
                    },
                };
                if child_size > u64::MAX - sum {
                    proof {
                        assert(children@.take(i + 1).drop_last() =~= children@.take(i as int));
                        assert(children@.take(i + 1).last() == children@[i as int]);
                        assert(children_size(children@.take(i + 1)) == sum + child_size);
                        lemma_children_size_take_le(children@, i + 1);
                        assert(children_size(children@) > u64::MAX);
                        assert(node_size(*n) > u64::MAX);
                    }
                    return Err(ScanError::Io);
                }
                proof {
                    assert(children@.take(i + 1).drop_last() =~= children@.take(i as int));
                    assert(children@.take(i + 1).last() == children@[i as int]);
                }
                sum = sum + child_size;
                i = i + 1;
            }
            proof {
                assert(children@.take(children@.len() as int) =~= children@);
            }
            Ok(sum)
        },
    }
}

} // verus!
