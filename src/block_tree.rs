//! The safe blocks as a sequence: lookups by id, by view and by certificate, and
//! the chain of ancestors that a block reaches through its parent QCs.
use vstd::prelude::*;
use crate::types;
use crate::types::{bytes_equal, Block, BlockId, LeaderProof, Qc, StandardQc};

verus! {

/// `b` is the block that the certificate `r` speaks of.
pub open spec fn refers_to(b: Block, r: StandardQc) -> bool {
    b.id == r.id && b.view == r.view
}

pub open spec fn holds_ref(blocks: Seq<Block>, r: StandardQc) -> bool {
    exists|i: int| 0 <= i < blocks.len() && refers_to(#[trigger] blocks[i], r)
}

pub open spec fn holds_id(blocks: Seq<Block>, id: BlockId) -> bool {
    exists|i: int| 0 <= i < blocks.len() && (#[trigger] blocks[i]).id == id
}

pub open spec fn holds_view(blocks: Seq<Block>, v: types::View) -> bool {
    exists|i: int| 0 <= i < blocks.len() && (#[trigger] blocks[i]).view == v
}

/// The block that `r` speaks of, where `holds_ref(blocks, r)`.
pub open spec fn block_of(blocks: Seq<Block>, r: StandardQc) -> Block {
    blocks[choose|i: int| 0 <= i < blocks.len() && refers_to(#[trigger] blocks[i], r)]
}

/// The parent of `b` among `blocks`: the block that its parent QC reaches.
pub open spec fn parent_in(blocks: Seq<Block>, b: Block) -> Option<Block> {
    if holds_ref(blocks, b.parent_qc.high_qc_spec()) {
        Some(block_of(blocks, b.parent_qc.high_qc_spec()))
    } else {
        None
    }
}

/// `b` followed by its ancestors, newest first, as far as `blocks` holds them.
pub open spec fn ancestry(blocks: Seq<Block>, b: Block) -> Seq<Block>
    decreases b.view,
{
    match parent_in(blocks, b) {
        Some(p) => if 0 <= p.view < b.view {
            seq![b] + ancestry(blocks, p)
        } else {
            seq![b]
        },
        None => seq![b],
    }
}

/// `a` is `d` or one of its ancestors.
pub open spec fn is_ancestor(blocks: Seq<Block>, a: Block, d: Block) -> bool {
    ancestry(blocks, d).contains(a)
}

pub open spec fn ids(s: Seq<Block>) -> Seq<BlockId> {
    s.map_values(|b: Block| b.id)
}

pub open spec fn unique_ids(blocks: Seq<Block>) -> bool {
    forall|i: int, j: int|
        0 <= i < blocks.len() && 0 <= j < blocks.len() && (#[trigger] blocks[i]).id == (
        #[trigger] blocks[j]).id ==> i == j
}

pub open spec fn unique_views(blocks: Seq<Block>) -> bool {
    forall|i: int, j: int|
        0 <= i < blocks.len() && 0 <= j < blocks.len() && (#[trigger] blocks[i]).view == (
        #[trigger] blocks[j]).view ==> i == j
}

pub proof fn lemma_block_of_unique(blocks: Seq<Block>, r: StandardQc, i: int)
    requires
        unique_ids(blocks),
        0 <= i < blocks.len(),
        refers_to(blocks[i], r),
    ensures
        holds_ref(blocks, r),
        block_of(blocks, r) == blocks[i],
{
    assert(holds_ref(blocks, r));
    let j = choose|j: int| 0 <= j < blocks.len() && refers_to(#[trigger] blocks[j], r);
    assert(blocks[j].id == blocks[i].id);
}

/// A chain of ancestors, cut at any point, is the ancestry of the block found there.
pub proof fn lemma_ancestry_suffix(blocks: Seq<Block>, b: Block, k: int)
    requires
        0 <= k < ancestry(blocks, b).len(),
    ensures
        ancestry(blocks, b).subrange(k, ancestry(blocks, b).len() as int) == ancestry(
            blocks,
            ancestry(blocks, b)[k],
        ),
    decreases b.view,
{
    let a = ancestry(blocks, b);
    if k == 0 {
        assert(a.subrange(0, a.len() as int) =~= a);
    } else {
        match parent_in(blocks, b) {
            Some(p) => {
                if 0 <= p.view < b.view {
                    let rest = ancestry(blocks, p);
                    assert(a == seq![b] + rest);
                    assert(a[k] == rest[k - 1]);
                    lemma_ancestry_suffix(blocks, p, k - 1);
                    assert(a.subrange(k, a.len() as int) =~= rest.subrange(k - 1, rest.len() as int));
                }
            },
            None => {},
        }
    }
}

/// Views strictly fall along a chain of ancestors.
pub proof fn lemma_ancestry_views(blocks: Seq<Block>, b: Block, i: int, j: int)
    requires
        0 <= i < j < ancestry(blocks, b).len(),
    ensures
        ancestry(blocks, b)[j].view < ancestry(blocks, b)[i].view,
    decreases b.view,
{
    let a = ancestry(blocks, b);
    match parent_in(blocks, b) {
        Some(p) => {
            if 0 <= p.view < b.view {
                let rest = ancestry(blocks, p);
                assert(a == seq![b] + rest);
                if i == 0 {
                    assert(rest[0] == p);
                    if j > 1 {
                        lemma_ancestry_views(blocks, p, 0, j - 1);
                    }
                } else {
                    lemma_ancestry_views(blocks, p, i - 1, j - 1);
                }
            }
        },
        None => {},
    }
}

pub fn same_qc(a: &Qc, b: &Qc) -> (r: bool)
    ensures
        r == (*a == *b),
{
    match (a, b) {
        (Qc::Standard(x), Qc::Standard(y)) => x.view == y.view && bytes_equal(&x.id.0, &y.id.0),
        (Qc::Aggregated(x), Qc::Aggregated(y)) => {
            x.view == y.view && x.high_qc.view == y.high_qc.view && bytes_equal(
                &x.high_qc.id.0,
                &y.high_qc.id.0,
            )
        },
        _ => false,
    }
}

pub fn same_block(a: &Block, b: &Block) -> (r: bool)
    ensures
        r == (*a == *b),
{
    let LeaderProof::LeaderId { leader_id: la } = a.leader_proof;
    let LeaderProof::LeaderId { leader_id: lb } = b.leader_proof;
    a.view == b.view && a.id == b.id && same_qc(&a.parent_qc, &b.parent_qc) && la == lb
}

pub fn find_by_id(blocks: &Vec<Block>, id: BlockId) -> (r: Option<usize>)
    ensures
        match r {
            Some(i) => i < blocks@.len() && blocks@[i as int].id == id,
            None => !holds_id(blocks@, id),
        },
{
    let mut i: usize = 0;
    while i < blocks.len()
        invariant
            0 <= i <= blocks@.len(),
            forall|j: int| 0 <= j < i ==> (#[trigger] blocks@[j]).id != id,
        decreases blocks@.len() - i,
    {
        if blocks[i].id == id {
            return Some(i);
        }
        i += 1;
    }
    None
}

pub fn find_by_view(blocks: &Vec<Block>, v: types::View) -> (r: Option<usize>)
    ensures
        match r {
            Some(i) => i < blocks@.len() && blocks@[i as int].view == v,
            None => !holds_view(blocks@, v),
        },
{
    let mut i: usize = 0;
    while i < blocks.len()
        invariant
            0 <= i <= blocks@.len(),
            forall|j: int| 0 <= j < i ==> (#[trigger] blocks@[j]).view != v,
        decreases blocks@.len() - i,
    {
        if blocks[i].view == v {
            return Some(i);
        }
        i += 1;
    }
    None
}

pub fn find_ref(blocks: &Vec<Block>, r: StandardQc) -> (res: Option<usize>)
    ensures
        match res {
            Some(i) => i < blocks@.len() && refers_to(blocks@[i as int], r),
            None => !holds_ref(blocks@, r),
        },
{
    let mut i: usize = 0;
    while i < blocks.len()
        invariant
            0 <= i <= blocks@.len(),
            forall|j: int| 0 <= j < i ==> !refers_to(#[trigger] blocks@[j], r),
        decreases blocks@.len() - i,
    {
        if blocks[i].id == r.id && blocks[i].view == r.view {
            return Some(i);
        }
        i += 1;
    }
    None
}

pub proof fn lemma_ancestry_head(blocks: Seq<Block>, b: Block)
    ensures
        ancestry(blocks, b).len() >= 1,
        ancestry(blocks, b)[0] == b,
{
}

/// Whether `a` is `d` or one of its ancestors among `blocks`.
pub fn descends_from(blocks: &Vec<Block>, a: &Block, d: &Block) -> (r: bool)
    requires
        unique_ids(blocks@),
    ensures
        r == is_ancestor(blocks@, *a, *d),
{
    let mut cur = *d;
    loop
        invariant
            unique_ids(blocks@),
            is_ancestor(blocks@, *a, *d) == is_ancestor(blocks@, *a, cur),
        decreases cur.view,
    {
        proof {
            lemma_ancestry_head(blocks@, cur);
        }
        if same_block(&cur, a) {
            assert(ancestry(blocks@, cur)[0] == *a);
            return true;
        }
        if cur.view <= a.view {
            proof {
                let anc = ancestry(blocks@, cur);
                assert forall|j: int| 0 <= j < anc.len() implies anc[j] != *a by {
                    if j > 0 {
                        lemma_ancestry_views(blocks@, cur, 0, j);
                    }
                }
            }
            return false;
        }
        let pref = cur.parent_qc.high_qc();
        match find_ref(blocks, pref) {
            Some(i) => {
                proof {
                    lemma_block_of_unique(blocks@, pref, i as int);
                }
                let p = blocks[i];
                if 0 <= p.view && p.view < cur.view {
                    proof {
                        let rest = ancestry(blocks@, p);
                        assert(ancestry(blocks@, cur) == seq![cur] + rest);
                        assert((seq![cur] + rest).contains(*a) ==> rest.contains(*a)) by {
                            if (seq![cur] + rest).contains(*a) {
                                let j = choose|j: int|
                                    0 <= j < (seq![cur] + rest).len() && (seq![cur] + rest)[j]
                                        == *a;
                                assert(j > 0);
                                assert(rest[j - 1] == *a);
                            }
                        }
                        assert(rest.contains(*a) ==> (seq![cur] + rest).contains(*a)) by {
                            if rest.contains(*a) {
                                let j = choose|j: int| 0 <= j < rest.len() && rest[j] == *a;
                                assert((seq![cur] + rest)[j + 1] == *a);
                            }
                        }
                    }
                    cur = p;
                } else {
                    assert(ancestry(blocks@, cur) == seq![cur]);
                    assert(!seq![cur].contains(*a)) by {
                        if seq![cur].contains(*a) {
                            assert(seq![cur][0] == *a);
                        }
                    }
                    return false;
                }
            },
            None => {
                assert(ancestry(blocks@, cur) == seq![cur]);
                assert(!seq![cur].contains(*a)) by {
                    if seq![cur].contains(*a) {
                        assert(seq![cur][0] == *a);
                    }
                }
                return false;
            },
        }
    }
}

/// Every block but the first has its parent among `blocks`, and the first is at
/// view 0.
pub open spec fn parents_held(blocks: Seq<Block>) -> bool {
    &&& blocks.len() > 0
    &&& blocks[0].view == 0
    &&& forall|i: int|
        0 < i < blocks.len() ==> holds_ref(blocks, (#[trigger] blocks[i]).parent_qc.high_qc_spec())
}

/// Adding a block changes no ancestry of the blocks already held.
pub proof fn lemma_ancestry_push(blocks: Seq<Block>, x: Block, c: Block)
    requires
        unique_ids(blocks.push(x)),
        unique_views(blocks),
        parents_held(blocks),
        blocks.contains(c),
    ensures
        ancestry(blocks.push(x), c) == ancestry(blocks, c),
    decreases c.view,
{
    let nb = blocks.push(x);
    let k = choose|k: int| 0 <= k < blocks.len() && blocks[k] == c;
    assert(nb[k] == blocks[k]);
    assert(unique_ids(blocks)) by {
        assert forall|i: int, j: int|
            0 <= i < blocks.len() && 0 <= j < blocks.len() && (#[trigger] blocks[i]).id == (
            #[trigger] blocks[j]).id implies i == j by {
            assert(nb[i] == blocks[i] && nb[j] == blocks[j]);
        }
    }
    if k == 0 {
        assert(c.view == 0);
    } else {
        let r = c.parent_qc.high_qc_spec();
        let w = choose|w: int| 0 <= w < blocks.len() && refers_to(#[trigger] blocks[w], r);
        lemma_block_of_unique(blocks, r, w);
        assert(nb[w] == blocks[w]);
        lemma_block_of_unique(nb, r, w);
        let p = blocks[w];
        assert(parent_in(nb, c) == parent_in(blocks, c));
        if 0 <= p.view < c.view {
            lemma_ancestry_push(blocks, x, p);
        }
    }
}

} // verus!
