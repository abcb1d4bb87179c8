use vstd::prelude::*;
use vstd::seq_lib::{lemma_multiset_commutative, to_multiset_build};

use crate::node::{node_key, DocumentNode};

verus! {

/// The highest paint-order key: the one of text nodes.
pub open spec fn max_key() -> int {
    4
}

/// The predicate selecting the nodes of one paint-order key.
pub open spec fn has_key(k: int) -> spec_fn(DocumentNode) -> bool {
    |n: DocumentNode| node_key(n) == k
}

/// The deterministic paint order of a node set: a stable ascending sort by
/// [`node_key`], written out as the concatenation of the key classes in key
/// order, each class keeping its original relative order.
pub open spec fn ordered(nodes: Seq<DocumentNode>) -> Seq<DocumentNode> {
    nodes.filter(has_key(0)) + nodes.filter(has_key(1)) + nodes.filter(has_key(2)) + nodes.filter(
        has_key(3),
    ) + nodes.filter(has_key(4))
}

/// Filtering a singleton keeps or drops its one element.
proof fn lemma_filter_singleton<A>(x: A, pred: spec_fn(A) -> bool)
    ensures
        seq![x].filter(pred) == if pred(x) {
            seq![x]
        } else {
            Seq::<A>::empty()
        },
{
    reveal_with_fuel(Seq::filter, 2);
    assert(seq![x].drop_last() =~= Seq::<A>::empty());
}

/// Filtering with a predicate every element satisfies changes nothing.
proof fn lemma_filter_all<A>(s: Seq<A>, pred: spec_fn(A) -> bool)
    requires
        forall|i: int| 0 <= i < s.len() ==> pred(#[trigger] s[i]),
    ensures
        s.filter(pred) == s,
    decreases s.len(),
{
    reveal(Seq::filter);
    if s.len() > 0 {
        lemma_filter_all(s.drop_last(), pred);
        assert(s.drop_last().filter(pred) + seq![s.last()] =~= s);
    }
}

/// Filtering with a predicate no element satisfies leaves nothing.
proof fn lemma_filter_none<A>(s: Seq<A>, pred: spec_fn(A) -> bool)
    requires
        forall|i: int| 0 <= i < s.len() ==> !pred(#[trigger] s[i]),
    ensures
        s.filter(pred) == Seq::<A>::empty(),
    decreases s.len(),
{
    reveal(Seq::filter);
    if s.len() > 0 {
        lemma_filter_none(s.drop_last(), pred);
    }
}

/// Taking one element off the tail of the unsorted rest moves it onto the
/// bucket of its key and leaves the other buckets alone.
proof fn lemma_bucket_step(full: Seq<DocumentNode>, j: int, k: int, bucket: Seq<DocumentNode>)
    requires
        1 <= j <= full.len(),
        bucket == full.skip(j).filter(has_key(k)).reverse(),
    ensures
        node_key(full[j - 1]) == k ==> bucket.push(full[j - 1]) == full.skip(j - 1).filter(
            has_key(k),
        ).reverse(),
        node_key(full[j - 1]) != k ==> bucket == full.skip(j - 1).filter(has_key(k)).reverse(),
{
    let node = full[j - 1];
    assert(full.skip(j - 1) =~= seq![node] + full.skip(j));
    Seq::<DocumentNode>::filter_distributes_over_add(seq![node], full.skip(j), has_key(k));
    lemma_filter_singleton(node, has_key(k));
    if node_key(node) == k {
        assert(bucket.push(node) =~= full.skip(j - 1).filter(has_key(k)).reverse());
    } else {
        assert(bucket =~= full.skip(j - 1).filter(has_key(k)).reverse());
    }
}

/// The paint-order key of a node, executable form.
fn key_of(n: &DocumentNode) -> (k: u8)
    ensures
        k as int == node_key(*n),
{
    match n {
        DocumentNode::Shape(s) => {
            let fill_part: u8 = if s.style.fill.is_some() {
                2
            } else {
                0
            };
            let stroke_part: u8 = if s.style.stroke.is_some() {
                1
            } else {
                0
            };
            fill_part + stroke_part
        },
        DocumentNode::Text(_) => 4,
    }
}

/// Moves the elements of `src` onto the end of `out`, last first.
fn append_reversed(out: &mut Vec<DocumentNode>, src: Vec<DocumentNode>)
    ensures
        final(out)@ == old(out)@ + src@.reverse(),
{
    let ghost orig_out = out@;
    let ghost orig_src = src@;
    let mut src = src;
    while src.len() > 0
        invariant
            out@ + src@.reverse() =~= orig_out + orig_src.reverse(),
        decreases src.len(),
    {
        let ghost pre = src@;
        let x = src.pop().unwrap();
        out.push(x);
        proof {
            assert(src@ =~= pre.drop_last());
            assert(out@ + src@.reverse() =~= orig_out + orig_src.reverse());
        }
    }
    assert(src@.reverse() =~= Seq::<DocumentNode>::empty());
    assert(out@ =~= orig_out + orig_src.reverse());
}

/// Reorders a node set into its deterministic paint order: a stable sort by
/// ascending [`node_key`], so plain geometry paints under styled geometry
/// and all text paints above all shapes.
pub fn order_nodes(nodes: Vec<DocumentNode>) -> (out: Vec<DocumentNode>)
    ensures
        out@ == ordered(nodes@),
{
    let ghost full = nodes@;
    let mut rest = nodes;
    let mut b0: Vec<DocumentNode> = Vec::new();
    let mut b1: Vec<DocumentNode> = Vec::new();
    let mut b2: Vec<DocumentNode> = Vec::new();
    let mut b3: Vec<DocumentNode> = Vec::new();
    let mut b4: Vec<DocumentNode> = Vec::new();
    proof {
        assert(full.take(full.len() as int) =~= full);
    }
    while rest.len() > 0
        invariant
            rest@.len() <= full.len(),
            rest@ == full.take(rest@.len() as int),
            b0@ == full.skip(rest@.len() as int).filter(has_key(0)).reverse(),
            b1@ == full.skip(rest@.len() as int).filter(has_key(1)).reverse(),
            b2@ == full.skip(rest@.len() as int).filter(has_key(2)).reverse(),
            b3@ == full.skip(rest@.len() as int).filter(has_key(3)).reverse(),
            b4@ == full.skip(rest@.len() as int).filter(has_key(4)).reverse(),
        decreases rest@.len(),
    {
        let ghost j = rest@.len() as int;
        proof {
            assert(full.take(j)[j - 1] == full[j - 1]);
            lemma_bucket_step(full, j, 0, b0@);
            lemma_bucket_step(full, j, 1, b1@);
            lemma_bucket_step(full, j, 2, b2@);
            lemma_bucket_step(full, j, 3, b3@);
            lemma_bucket_step(full, j, 4, b4@);
        }
        let node = rest.pop().unwrap();
        proof {
            assert(rest@ =~= full.take(j - 1));
        }
        let k = key_of(&node);
        if k == 0 {
            b0.push(node);
        } else if k == 1 {
            b1.push(node);
        } else if k == 2 {
            b2.push(node);
        } else if k == 3 {
            b3.push(node);
        } else {
            b4.push(node);
        }
    }
    proof {
        assert(full.skip(0) =~= full);
    }
    let mut out: Vec<DocumentNode> = Vec::new();
    append_reversed(&mut out, b0);
    append_reversed(&mut out, b1);
    append_reversed(&mut out, b2);
    append_reversed(&mut out, b3);
    append_reversed(&mut out, b4);
    proof {
        assert(full.filter(has_key(0)).reverse().reverse() =~= full.filter(has_key(0)));
        assert(full.filter(has_key(1)).reverse().reverse() =~= full.filter(has_key(1)));
        assert(full.filter(has_key(2)).reverse().reverse() =~= full.filter(has_key(2)));
        assert(full.filter(has_key(3)).reverse().reverse() =~= full.filter(has_key(3)));
        assert(full.filter(has_key(4)).reverse().reverse() =~= full.filter(has_key(4)));
        assert(out@ =~= ordered(full));
    }
    out
}

/// The key class an index of the ordered sequence falls into.
spec fn seg_key(nodes: Seq<DocumentNode>, i: int) -> int {
    let l0 = nodes.filter(has_key(0)).len();
    let l1 = nodes.filter(has_key(1)).len();
    let l2 = nodes.filter(has_key(2)).len();
    let l3 = nodes.filter(has_key(3)).len();
    if i < l0 {
        0
    } else if i < l0 + l1 {
        1
    } else if i < l0 + l1 + l2 {
        2
    } else if i < l0 + l1 + l2 + l3 {
        3
    } else {
        4
    }
}

/// Each position of the ordered sequence holds a node of its class key.
proof fn lemma_ordered_index_key(nodes: Seq<DocumentNode>, i: int)
    requires
        0 <= i < ordered(nodes).len(),
    ensures
        node_key(ordered(nodes)[i]) == seg_key(nodes, i),
{
    let f0 = nodes.filter(has_key(0));
    let f1 = nodes.filter(has_key(1));
    let f2 = nodes.filter(has_key(2));
    let f3 = nodes.filter(has_key(3));
    let f4 = nodes.filter(has_key(4));
    let l0 = f0.len() as int;
    let l1 = f1.len() as int;
    let l2 = f2.len() as int;
    let l3 = f3.len() as int;
    if i < l0 {
        assert(ordered(nodes)[i] == f0[i]);
        nodes.lemma_filter_pred(has_key(0), i);
    } else if i < l0 + l1 {
        assert(ordered(nodes)[i] == f1[i - l0]);
        nodes.lemma_filter_pred(has_key(1), i - l0);
    } else if i < l0 + l1 + l2 {
        assert(ordered(nodes)[i] == f2[i - l0 - l1]);
        nodes.lemma_filter_pred(has_key(2), i - l0 - l1);
    } else if i < l0 + l1 + l2 + l3 {
        assert(ordered(nodes)[i] == f3[i - l0 - l1 - l2]);
        nodes.lemma_filter_pred(has_key(3), i - l0 - l1 - l2);
    } else {
        assert(ordered(nodes)[i] == f4[i - l0 - l1 - l2 - l3]);
        nodes.lemma_filter_pred(has_key(4), i - l0 - l1 - l2 - l3);
    }
}

/// The established paint order is sorted: for any node set and any two
/// positions of the ordered sequence, the earlier node's key is no larger
/// than the later node's. In particular every shape stands before every
/// text node.
pub proof fn lemma_ordered_sorted(nodes: Seq<DocumentNode>, i: int, j: int)
    requires
        0 <= i <= j < ordered(nodes).len(),
    ensures
        node_key(ordered(nodes)[i]) <= node_key(ordered(nodes)[j]),
{
    lemma_ordered_index_key(nodes, i);
    lemma_ordered_index_key(nodes, j);
}

/// All text paints above all shapes: once a text node appears in the
/// ordered sequence, everything after it is text too.
pub proof fn lemma_text_paints_above_shapes(nodes: Seq<DocumentNode>, i: int, j: int)
    requires
        0 <= i <= j < ordered(nodes).len(),
        ordered(nodes)[i] is Text,
    ensures
        ordered(nodes)[j] is Text,
{
    lemma_ordered_sorted(nodes, i, j);
}

/// The established paint order is stable: the nodes of any one key class
/// appear in the ordered sequence exactly as they stood in the input,
/// ties preserving their prior relative order.
pub proof fn lemma_ordered_stable(nodes: Seq<DocumentNode>, k: int)
    requires
        0 <= k <= max_key(),
    ensures
        ordered(nodes).filter(has_key(k)) == nodes.filter(has_key(k)),
{
    let f0 = nodes.filter(has_key(0));
    let f1 = nodes.filter(has_key(1));
    let f2 = nodes.filter(has_key(2));
    let f3 = nodes.filter(has_key(3));
    let f4 = nodes.filter(has_key(4));
    Seq::<DocumentNode>::filter_distributes_over_add(f0, f1, has_key(k));
    Seq::<DocumentNode>::filter_distributes_over_add(f0 + f1, f2, has_key(k));
    Seq::<DocumentNode>::filter_distributes_over_add(f0 + f1 + f2, f3, has_key(k));
    Seq::<DocumentNode>::filter_distributes_over_add(f0 + f1 + f2 + f3, f4, has_key(k));
    lemma_class_filter(nodes, 0, k);
    lemma_class_filter(nodes, 1, k);
    lemma_class_filter(nodes, 2, k);
    lemma_class_filter(nodes, 3, k);
    lemma_class_filter(nodes, 4, k);
    assert(ordered(nodes).filter(has_key(k)) =~= nodes.filter(has_key(k)));
}

/// Filtering one key class by another key keeps all of it or none of it.
proof fn lemma_class_filter(nodes: Seq<DocumentNode>, m: int, k: int)
    ensures
        m == k ==> nodes.filter(has_key(m)).filter(has_key(k)) == nodes.filter(has_key(m)),
        m != k ==> nodes.filter(has_key(m)).filter(has_key(k)) == Seq::<DocumentNode>::empty(),
{
    let fm = nodes.filter(has_key(m));
    assert forall|i: int| 0 <= i < fm.len() implies has_key(m)(#[trigger] fm[i]) by {
        nodes.lemma_filter_pred(has_key(m), i);
    }
    if m == k {
        lemma_filter_all(fm, has_key(k));
    } else {
        lemma_filter_none(fm, has_key(k));
    }
}

/// The established paint order is a permutation: no node is dropped or
/// duplicated, the multiset of nodes is exactly that of the input.
pub proof fn lemma_ordered_permutation(nodes: Seq<DocumentNode>)
    ensures
        ordered(nodes).to_multiset() == nodes.to_multiset(),
    decreases nodes.len(),
{
    if nodes.len() == 0 {
        reveal(Seq::filter);
        assert(ordered(nodes) =~= nodes);
    } else {
        let d = nodes.drop_last();
        let x = nodes.last();
        lemma_ordered_permutation(d);
        assert(nodes =~= d.push(x));
        lemma_push_filter_classes(d, x);
        to_multiset_build(d, x);
        lemma_concat_multisets(
            ordered(nodes),
            ordered(d),
            node_key(x),
            d.filter(has_key(0)),
            d.filter(has_key(1)),
            d.filter(has_key(2)),
            d.filter(has_key(3)),
            d.filter(has_key(4)),
            x,
        );
        assert(d.push(x).to_multiset() =~= d.to_multiset().insert(x));
    }
}

/// Appending one node extends its own key class and leaves the others.
proof fn lemma_push_filter_classes(d: Seq<DocumentNode>, x: DocumentNode)
    ensures
        forall|k: int|
            0 <= k <= max_key() ==> #[trigger] d.push(x).filter(has_key(k)) == if node_key(x)
                == k {
                d.filter(has_key(k)).push(x)
            } else {
                d.filter(has_key(k))
            },
{
    assert forall|k: int| 0 <= k <= max_key() implies #[trigger] d.push(x).filter(has_key(k))
        == if node_key(x) == k {
        d.filter(has_key(k)).push(x)
    } else {
        d.filter(has_key(k))
    } by {
        assert(d.push(x) =~= d + seq![x]);
        Seq::<DocumentNode>::filter_distributes_over_add(d, seq![x], has_key(k));
        lemma_filter_singleton(x, has_key(k));
        if node_key(x) == k {
            assert(d.filter(has_key(k)) + seq![x] =~= d.filter(has_key(k)).push(x));
        } else {
            assert(d.filter(has_key(k)) + Seq::<DocumentNode>::empty() =~= d.filter(has_key(k)));
        }
    }
}

/// Inserting one element into the key class it belongs to inserts it into
/// the multiset of the whole concatenation.
#[verifier::spinoff_prover]
proof fn lemma_concat_multisets(
    whole: Seq<DocumentNode>,
    prior: Seq<DocumentNode>,
    kx: int,
    f0: Seq<DocumentNode>,
    f1: Seq<DocumentNode>,
    f2: Seq<DocumentNode>,
    f3: Seq<DocumentNode>,
    f4: Seq<DocumentNode>,
    x: DocumentNode,
)
    requires
        0 <= kx <= max_key(),
        prior == f0 + f1 + f2 + f3 + f4,
        whole == (if kx == 0 {
            f0.push(x)
        } else {
            f0
        }) + (if kx == 1 {
            f1.push(x)
        } else {
            f1
        }) + (if kx == 2 {
            f2.push(x)
        } else {
            f2
        }) + (if kx == 3 {
            f3.push(x)
        } else {
            f3
        }) + (if kx == 4 {
            f4.push(x)
        } else {
            f4
        }),
    ensures
        whole.to_multiset() == prior.to_multiset().insert(x),
{
    lemma_multiset_commutative(f0, f1);
    lemma_multiset_commutative(f0 + f1, f2);
    lemma_multiset_commutative(f0 + f1 + f2, f3);
    lemma_multiset_commutative(f0 + f1 + f2 + f3, f4);
    let g0 = if kx == 0 {
        f0.push(x)
    } else {
        f0
    };
    let g1 = if kx == 1 {
        f1.push(x)
    } else {
        f1
    };
    let g2 = if kx == 2 {
        f2.push(x)
    } else {
        f2
    };
    let g3 = if kx == 3 {
        f3.push(x)
    } else {
        f3
    };
    let g4 = if kx == 4 {
        f4.push(x)
    } else {
        f4
    };
    lemma_multiset_commutative(g0, g1);
    lemma_multiset_commutative(g0 + g1, g2);
    lemma_multiset_commutative(g0 + g1 + g2, g3);
    lemma_multiset_commutative(g0 + g1 + g2 + g3, g4);
    assert(whole == g0 + g1 + g2 + g3 + g4);
    if kx == 0 {
        to_multiset_build(f0, x);
        assert(g0.to_multiset() =~= f0.to_multiset().insert(x));
    } else if kx == 1 {
        to_multiset_build(f1, x);
        assert(g1.to_multiset() =~= f1.to_multiset().insert(x));
    } else if kx == 2 {
        to_multiset_build(f2, x);
        assert(g2.to_multiset() =~= f2.to_multiset().insert(x));
    } else if kx == 3 {
        to_multiset_build(f3, x);
        assert(g3.to_multiset() =~= f3.to_multiset().insert(x));
    } else {
        to_multiset_build(f4, x);
        assert(g4.to_multiset() =~= f4.to_multiset().insert(x));
    }
    assert(whole.to_multiset() =~= prior.to_multiset().insert(x));
}

} // verus!
