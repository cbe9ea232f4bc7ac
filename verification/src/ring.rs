//! The arena behind a chain: cells that hold the links and payloads of the
//! nodes, and what it means for the cells to form one cycle.

use vstd::prelude::*;
use crate::dll::ANCHOR;

verus! {

/// One cell of the arena: the links of a node and, while the node is in the
/// chain, its payload.
pub(crate) struct Slot<T> {
    pub(crate) next: usize,
    pub(crate) prev: usize,
    pub(crate) item: Option<T>,
}

/// Position that follows `i` on a cycle of `len` nodes.
pub(crate) open spec fn succ(i: int, len: int) -> int {
    if i + 1 < len {
        i + 1
    } else {
        0
    }
}

/// The links at position `i` of the cycle `c` are in order: the node's
/// successor is the next node of the cycle, and that node's predecessor is
/// the node.
pub(crate) open spec fn link_ok<T>(s: Seq<Slot<T>>, c: Seq<usize>, i: int) -> bool {
    let a = c[i] as int;
    let b = c[succ(i, c.len() as int)] as int;
    &&& a < s.len()
    &&& b < s.len()
    &&& s[a].next == b
    &&& s[b].prev == a
}

/// The arena `s` holds the cycle `c`: the cycle starts at the anchor and
/// names no cell twice, the links follow it, and the cells that hold a
/// payload are those of the cycle's nodes other than the anchor.
pub(crate) open spec fn ring<T>(s: Seq<Slot<T>>, c: Seq<usize>) -> bool {
    &&& c.len() >= 1
    &&& c[0] == ANCHOR
    &&& c.no_duplicates()
    &&& forall|i: int| 0 <= i < c.len() ==> #[trigger] link_ok(s, c, i)
    &&& forall|x: int|
        0 <= x < s.len() ==> ((#[trigger] s[x]).item is Some <==> x != ANCHOR && c.contains(
            x as usize,
        ))
}

/// The payloads that the arena `s` holds for the nodes of the cycle `c`
/// other than the anchor, in the cycle's order.
pub(crate) open spec fn content<T>(s: Seq<Slot<T>>, c: Seq<usize>) -> Seq<T> {
    Seq::new((c.len() - 1) as nat, |k: int| s[c[k + 1] as int].item->0)
}

/// Changing the payload of the node at position `q` changes the content at
/// that node's place and nothing else.
pub(crate) proof fn lemma_put<T>(s0: Seq<Slot<T>>, c: Seq<usize>, q: int, s: Seq<Slot<T>>)
    requires
        ring(s0, c),
        1 <= q < c.len(),
        s.len() == s0.len(),
        s[c[q] as int].item is Some,
        forall|x: int|
            0 <= x < s0.len() ==> {
                &&& (#[trigger] s[x]).next == s0[x].next
                &&& s[x].prev == s0[x].prev
                &&& x != c[q] ==> s[x].item == s0[x].item
            },
    ensures
        ring(s, c),
        content(s, c) == content(s0, c).update(q - 1, s[c[q] as int].item->0),
{
    assert forall|i: int| 0 <= i < c.len() implies #[trigger] link_ok(s, c, i) by {
        assert(link_ok(s0, c, i));
    }
    assert(link_ok(s0, c, q));
    assert(s0[c[q] as int].item is Some);
    assert forall|x: int| 0 <= x < s.len() implies ((#[trigger] s[x]).item is Some <==> x != ANCHOR
        && c.contains(x as usize)) by {
        assert(s0[x].item is Some <==> x != ANCHOR && c.contains(x as usize));
    }
    assert(content(s, c) =~= content(s0, c).update(q - 1, s[c[q] as int].item->0)) by {
        assert forall|i: int| 0 <= i < c.len() - 1 implies content(s, c)[i] == content(
            s0,
            c,
        ).update(q - 1, s[c[q] as int].item->0)[i] by {
            assert(link_ok(s0, c, i + 1));
            if i != q - 1 {
                assert(c[i + 1] != c[q]);
            }
        }
    }
}

/// Linking a fresh cell in behind position `q` of the cycle leaves a
/// cycle that is one node longer.
pub(crate) proof fn lemma_splice_in<T>(s0: Seq<Slot<T>>, c: Seq<usize>, q: int, s: Seq<Slot<T>>)
    requires
        ring(s0, c),
        0 <= q < c.len(),
        s.len() == s0.len() + 1,
        s[s0.len() as int].item is Some,
        s[s0.len() as int].prev == c[q],
        s[s0.len() as int].next == c[succ(q, c.len() as int)],
        s[c[q] as int].next == s0.len(),
        s[c[succ(q, c.len() as int)] as int].prev == s0.len(),
        forall|x: int|
            0 <= x < s0.len() ==> {
                &&& (#[trigger] s[x]).item == s0[x].item
                &&& x != c[q] ==> s[x].next == s0[x].next
                &&& x != c[succ(q, c.len() as int)] ==> s[x].prev == s0[x].prev
            },
    ensures
        ring(s, c.insert(q + 1, s0.len() as usize)),
{
    let n = c.len() as int;
    let h = s0.len() as usize;
    let nc = c.insert(q + 1, h);
    assert forall|i: int| 0 <= i < n implies (#[trigger] c[i]) < s0.len() by {
        assert(link_ok(s0, c, i));
    }
    assert forall|i: int, j: int| 0 <= i < nc.len() && 0 <= j < nc.len() && i != j implies nc[i]
        != nc[j] by {
        let a = if i <= q {
            i
        } else {
            i - 1
        };
        let b = if j <= q {
            j
        } else {
            j - 1
        };
        if i != q + 1 {
            assert(nc[i] == c[a]);
        }
        if j != q + 1 {
            assert(nc[j] == c[b]);
        }
    }
    assert forall|i: int| 0 <= i < nc.len() implies #[trigger] link_ok(s, nc, i) by {
        if i < q {
            assert(link_ok(s0, c, i));
            assert(c[i] != c[q]);
            assert(c[i + 1] != c[succ(q, n)]);
        } else if i == q {
            assert(link_ok(s0, c, q));
        } else if i == q + 1 {
            assert(link_ok(s0, c, q));
        } else {
            assert(link_ok(s0, c, i - 1));
            assert(c[i - 1] != c[q]);
            assert(c[succ(i - 1, n)] != c[succ(q, n)]);
        }
    }
    assert forall|x: int| 0 <= x < s.len() implies ((#[trigger] s[x]).item is Some <==> x != ANCHOR
        && nc.contains(x as usize)) by {
        if x == h {
            assert(nc[q + 1] == h);
        } else {
            assert(s[x].item == s0[x].item);
            assert(s0[x].item is Some <==> x != ANCHOR && c.contains(x as usize));
            if c.contains(x as usize) {
                let i = choose|i: int| 0 <= i < c.len() && c[i] == x as usize;
                assert(nc[if i <= q {
                    i
                } else {
                    i + 1
                }] == x as usize);
            }
            if nc.contains(x as usize) {
                let i = choose|i: int| 0 <= i < nc.len() && nc[i] == x as usize;
                assert(c[if i <= q {
                    i
                } else {
                    i - 1
                }] == x as usize);
            }
        }
    }
}

/// Linking the neighbours of the node at position `q` to each other and
/// emptying its cell leaves a cycle that is one node shorter.
pub(crate) proof fn lemma_splice_out<T>(s0: Seq<Slot<T>>, c: Seq<usize>, q: int, s: Seq<Slot<T>>)
    requires
        ring(s0, c),
        1 <= q < c.len(),
        s.len() == s0.len() <= usize::MAX,
        s[c[q] as int].item is None,
        s[c[q - 1] as int].next == c[succ(q, c.len() as int)],
        s[c[succ(q, c.len() as int)] as int].prev == c[q - 1],
        forall|x: int|
            0 <= x < s0.len() ==> {
                &&& x != c[q] ==> (#[trigger] s[x]).item == s0[x].item
                &&& x != c[q - 1] && x != c[q] ==> s[x].next == s0[x].next
                &&& x != c[succ(q, c.len() as int)] && x != c[q] ==> s[x].prev == s0[x].prev
            },
    ensures
        ring(s, c.remove(q)),
{
    let n = c.len() as int;
    let h = c[q];
    let nc = c.remove(q);
    assert forall|i: int| 0 <= i < n implies (#[trigger] c[i]) < s0.len() by {
        assert(link_ok(s0, c, i));
    }
    assert forall|i: int, j: int| 0 <= i < nc.len() && 0 <= j < nc.len() && i != j implies nc[i]
        != nc[j] by {
        assert(nc[i] == c[if i < q {
            i
        } else {
            i + 1
        }]);
        assert(nc[j] == c[if j < q {
            j
        } else {
            j + 1
        }]);
    }
    assert forall|i: int| 0 <= i < nc.len() implies #[trigger] link_ok(s, nc, i) by {
        if i < q - 1 {
            assert(link_ok(s0, c, i));
            assert(c[i] != c[q - 1]);
            assert(c[i] != c[q]);
            assert(c[i + 1] != c[q]);
            assert(c[i + 1] != c[succ(q, n)]);
        } else if i == q - 1 {
            assert(link_ok(s0, c, q));
            assert(nc[succ(i, n - 1)] == c[succ(q, n)]);
        } else {
            assert(link_ok(s0, c, i + 1));
            assert(c[i + 1] != c[q - 1]);
            assert(c[i + 1] != c[q]);
            assert(nc[succ(i, n - 1)] == c[succ(i + 1, n)]);
            assert(c[succ(i + 1, n)] != c[q]);
            assert(c[succ(i + 1, n)] != c[succ(q, n)]);
        }
    }
    assert forall|x: int| 0 <= x < s.len() implies ((#[trigger] s[x]).item is Some <==> x != ANCHOR
        && nc.contains(x as usize)) by {
        if x == h {
            if nc.contains(h) {
                let i = choose|i: int| 0 <= i < nc.len() && nc[i] == h;
                assert(nc[i] == c[if i < q {
                    i
                } else {
                    i + 1
                }]);
            }
        } else {
            assert(s[x].item == s0[x].item);
            assert(s0[x].item is Some <==> x != ANCHOR && c.contains(x as usize));
            if c.contains(x as usize) {
                let i = choose|i: int| 0 <= i < c.len() && c[i] == x as usize;
                assert(i != q);
                let j = if i < q {
                    i
                } else {
                    i - 1
                };
                assert(nc[j] == c[i]);
            }
            if nc.contains(x as usize) {
                let i = choose|i: int| 0 <= i < nc.len() && nc[i] == x as usize;
                assert(c[if i < q {
                    i
                } else {
                    i + 1
                }] == x as usize);
            }
        }
    }
}

} // verus!
