//! The shape of trie proof nodes: RLP item boundaries, and how many path
//! nibbles each node can add while a proof is walked.
use vstd::prelude::*;

verus! {

/// The header of an RLP item with a length of length of one or two bytes:
/// whether it is a list, where its payload starts, and the payload length.
pub open spec fn long_header(b: Seq<u8>, at: int, list: bool, ll: int) -> Option<(bool, int, int)> {
    if at + ll >= b.len() {
        None
    } else if ll == 1 {
        Some((list, at + 2, b[at + 1] as int))
    } else {
        Some((list, at + 3, b[at + 1] as int * 256 + b[at + 2] as int))
    }
}

/// The header of the RLP item at `at`: whether it is a list, where its
/// payload starts and how long it is. `None` where the item does not fit in
/// `b`, or its length takes more than two bytes.
pub open spec fn rlp_header(b: Seq<u8>, at: int) -> Option<(bool, int, int)> {
    if !(0 <= at < b.len()) {
        None
    } else {
        let x = b[at] as int;
        let h = if x < 0x80 {
            Some((false, at, 1int))
        } else if x < 0xb8 {
            Some((false, at + 1, x - 0x80))
        } else if x < 0xba {
            long_header(b, at, false, x - 0xb7)
        } else if x < 0xc0 {
            None
        } else if x < 0xf8 {
            Some((true, at + 1, x - 0xc0))
        } else if x < 0xfa {
            long_header(b, at, true, x - 0xf7)
        } else {
            None
        };
        match h {
            Some(t) => if t.1 + t.2 <= b.len() { h } else { None },
            None => None,
        }
    }
}

/// The items that exactly fill `b[at..end]`, each as the range it spans.
pub open spec fn rlp_items(b: Seq<u8>, at: int, end: int) -> Option<Seq<(int, int)>>
    decreases end - at,
{
    if at >= end {
        if at == end { Some(Seq::empty()) } else { None }
    } else {
        match rlp_header(b, at) {
            Some(h) => {
                let e = h.1 + h.2;
                if at < e <= end {
                    match rlp_items(b, e, end) {
                        Some(rest) => Some(seq![(at, e)] + rest),
                        None => None,
                    }
                } else {
                    None
                }
            },
            None => None,
        }
    }
}

/// A branch child that is empty or a 32-byte hash, never a node inline.
pub open spec fn hashed_child(n: Seq<u8>, item: (int, int)) -> bool {
    (item.1 - item.0 == 1 && n[item.0] == 0x80) || item.1 - item.0 == 33
}

/// The nibbles that a leaf or extension node adds to the path: its
/// compact-encoded key holds at most 32 bytes after the flag byte, and an
/// extension's child is a 32-byte hash.
pub open spec fn short_node_nibbles(n: Seq<u8>, key: (int, int), child: (int, int)) -> Option<nat> {
    match rlp_header(n, key.0) {
        Some(h) => {
            if !h.0 && 1 <= h.2 <= 33 {
                let flag = n[h.1] / 16;
                let count = 2 * (h.2 - 1) + if flag == 1 || flag == 3 { 1int } else { 0int };
                if flag <= 1 {
                    if child.1 - child.0 == 33 { Some(count as nat) } else { None }
                } else if flag <= 3 {
                    Some(count as nat)
                } else {
                    None
                }
            } else {
                None
            }
        },
        None => None,
    }
}

/// The nibbles that a proof node can add to the walked path: one for a
/// branch whose children are all hashed, the key's length for a leaf or an
/// extension. `None` for any other shape.
pub open spec fn node_nibbles(n: Seq<u8>) -> Option<nat> {
    match rlp_header(n, 0) {
        Some(h) => {
            if h.0 && h.1 + h.2 == n.len() {
                match rlp_items(n, h.1, n.len() as int) {
                    Some(items) => {
                        if items.len() == 17 {
                            if forall|i: int| 0 <= i < 17 ==> #[trigger] hashed_child(n, items[i]) {
                                Some(1)
                            } else {
                                None
                            }
                        } else if items.len() == 2 {
                            short_node_nibbles(n, items[0], items[1])
                        } else {
                            None
                        }
                    },
                    None => None,
                }
            } else {
                None
            }
        },
        None => None,
    }
}

/// Proof nodes as byte strings.
pub open spec fn nodes_view(nodes: Seq<Vec<u8>>) -> Seq<Seq<u8>> {
    nodes.map_values(|n: Vec<u8>| n@)
}

/// The nibbles that all the nodes together can add to the walked path.
pub open spec fn path_nibbles(nodes: Seq<Seq<u8>>) -> Option<nat>
    decreases nodes.len(),
{
    if nodes.len() == 0 {
        Some(0)
    } else {
        match (path_nibbles(nodes.drop_last()), node_nibbles(nodes.last())) {
            (Some(a), Some(c)) => Some(a + c),
            _ => None,
        }
    }
}

/// Whether every node has a plain shape and walking them all cannot take
/// the path past the 64 nibbles of a hashed key.
pub open spec fn walkable(nodes: Seq<Seq<u8>>) -> bool {
    match path_nibbles(nodes) {
        Some(t) => t <= 64,
        None => false,
    }
}

fn header_at(b: &[u8], at: usize) -> (r: Option<(bool, usize, usize)>)
    ensures
        match rlp_header(b@, at as int) {
            Some(h) => r matches Some(t) && h == (t.0, t.1 as int, t.2 as int),
            None => r is None,
        },
{
    let len = b.len();
    if at >= len {
        return None;
    }
    let x = b[at];
    let (list, start, n): (bool, usize, usize) = if x < 0x80 {
        (false, at, 1)
    } else if x < 0xb8 {
        (false, at + 1, (x - 0x80) as usize)
    } else if x < 0xc0 || x >= 0xf8 {
        let list = x >= 0xf8;
        let ll: usize = if list { (x - 0xf7) as usize } else { (x - 0xb7) as usize };
        if ll > 2 || ll >= len - at {
            return None;
        }
        if ll == 1 {
            (list, at + 2, b[at + 1] as usize)
        } else {
            (list, at + 3, b[at + 1] as usize * 256 + b[at + 2] as usize)
        }
    } else {
        (true, at + 1, (x - 0xc0) as usize)
    };
    if start > len || n > len - start {
        return None;
    }
    Some((list, start, n))
}

fn items_in(b: &[u8], start: usize, end: usize) -> (r: Option<Vec<(usize, usize)>>)
    requires
        start <= end <= b@.len(),
    ensures
        match rlp_items(b@, start as int, end as int) {
            Some(s) => r matches Some(v) && s == v@.map_values(|p: (usize, usize)| (p.0 as int, p.1 as int)),
            None => r is None,
        },
{
    let len = b.len();
    let mut acc: Vec<(usize, usize)> = Vec::new();
    let mut cur = start;
    while cur < end
        invariant
            len == b@.len(),
            start <= cur <= end <= b@.len(),
            rlp_items(b@, start as int, end as int) == match rlp_items(b@, cur as int, end as int) {
                Some(rest) => Some(acc@.map_values(|p: (usize, usize)| (p.0 as int, p.1 as int)) + rest),
                None => None::<Seq<(int, int)>>,
            },
        decreases end - cur,
    {
        let h = header_at(b, cur);
        match h {
            None => return None,
            Some((_, s, n)) => {
                let e = s + n;
                if !(cur < e && e <= end) {
                    return None;
                }
                let ghost before = acc@.map_values(|p: (usize, usize)| (p.0 as int, p.1 as int));
                acc.push((cur, e));
                proof {
                    let after = acc@.map_values(|p: (usize, usize)| (p.0 as int, p.1 as int));
                    assert(after =~= before.push((cur as int, e as int)));
                    match rlp_items(b@, e as int, end as int) {
                        Some(rest) => {
                            assert(before + (seq![(cur as int, e as int)] + rest) =~= after + rest);
                        },
                        None => {},
                    }
                }
                cur = e;
            },
        }
    }
    proof {
        assert(acc@.map_values(|p: (usize, usize)| (p.0 as int, p.1 as int)) + Seq::<(int, int)>::empty()
            =~= acc@.map_values(|p: (usize, usize)| (p.0 as int, p.1 as int)));
    }
    Some(acc)
}

proof fn lemma_items_bounds(b: Seq<u8>, at: int, end: int)
    requires
        rlp_items(b, at, end) is Some,
    ensures
        forall|i: int| 0 <= i < rlp_items(b, at, end)->Some_0.len() ==> at <= (#[trigger] rlp_items(b, at, end)->Some_0[i]).0
            < rlp_items(b, at, end)->Some_0[i].1 <= end,
    decreases end - at,
{
    if at < end {
        let h = rlp_header(b, at)->Some_0;
        let e = h.1 + h.2;
        lemma_items_bounds(b, e, end);
        let rest = rlp_items(b, e, end)->Some_0;
        assert forall|i: int| 0 <= i < rlp_items(b, at, end)->Some_0.len() implies at <= (
        #[trigger] rlp_items(b, at, end)->Some_0[i]).0 < rlp_items(b, at, end)->Some_0[i].1 <= end by {
            if i > 0 {
                assert(rlp_items(b, at, end)->Some_0[i] == rest[i - 1]);
            }
        }
    }
}

/// How many nibbles the node can add to the walked path; `None` for a
/// shape outside `node_nibbles`.
pub fn node_nibbles_of(n: &[u8]) -> (r: Option<u64>)
    ensures
        match node_nibbles(n@) {
            Some(c) => r matches Some(v) && v as nat == c,
            None => r is None,
        },
{
    let len = n.len();
    let (list, s, l) = match header_at(n, 0) {
        None => return None,
        Some(t) => t,
    };
    if !list || s + l != len {
        return None;
    }
    let items = match items_in(n, s, len) {
        None => return None,
        Some(v) => v,
    };
    let ghost view = items@.map_values(|p: (usize, usize)| (p.0 as int, p.1 as int));
    proof {
        lemma_items_bounds(n@, s as int, len as int);
        assert(rlp_items(n@, s as int, len as int) == Some(view));
    }
    assert(forall|j: int| 0 <= j < items@.len() ==> view[j] == (items@[j].0 as int, items@[j].1 as int));
    if items.len() == 17 {
        let mut i: usize = 0;
        while i < 17
            invariant
                items@.len() == 17,
                len == n@.len(),
                rlp_items(n@, s as int, len as int) == Some(view),
                rlp_header(n@, 0) == Some((true, s as int, l as int)),
                s + l == len,
                view == items@.map_values(|p: (usize, usize)| (p.0 as int, p.1 as int)),
                forall|j: int| 0 <= j < 17 ==> s <= (#[trigger] view[j]).0 < view[j].1 <= len,
                forall|j: int| 0 <= j < items@.len() ==> view[j] == (items@[j].0 as int, items@[j].1 as int),
                forall|j: int| 0 <= j < i ==> #[trigger] hashed_child(n@, view[j]),
                0 <= i <= 17,
            decreases 17 - i,
        {
            let (a, e) = items[i];
            assert(view[i as int] == (a as int, e as int));
            if !((e - a == 1 && n[a] == 0x80) || e - a == 33) {
                assert(!hashed_child(n@, view[i as int]));
                assert(!(forall|j: int| 0 <= j < 17 ==> #[trigger] hashed_child(n@, view[j])));
                return None;
            }
            i += 1;
        }
        Some(1)
    } else if items.len() == 2 {
        let (k0, _) = items[0];
        let (c0, c1) = items[1];
        assert(view[0].0 == k0 as int);
        assert(view[1] == (c0 as int, c1 as int));
        let (klist, ks, kl) = match header_at(n, k0) {
            None => return None,
            Some(t) => t,
        };
        if klist || kl < 1 || kl > 33 {
            return None;
        }
        let flag = n[ks] / 16;
        let odd: u64 = if flag == 1 || flag == 3 { 1 } else { 0 };
        let count: u64 = 2 * (kl as u64 - 1) + odd;
        if flag <= 1 {
            if c1 - c0 == 33 { Some(count) } else { None }
        } else if flag <= 3 {
            Some(count)
        } else {
            None
        }
    } else {
        None
    }
}

proof fn lemma_path_past_bound(nodes: Seq<Seq<u8>>, i: int, a: nat)
    requires
        0 <= i <= nodes.len(),
        path_nibbles(nodes.take(i)) == Some(a),
        a > 64,
    ensures
        !walkable(nodes),
    decreases nodes.len() - i,
{
    if i < nodes.len() {
        let t = nodes.take(i + 1);
        assert(t.drop_last() =~= nodes.take(i));
        match node_nibbles(nodes[i]) {
            Some(c) => lemma_path_past_bound(nodes, i + 1, a + c),
            None => lemma_path_none(nodes, i + 1),
        }
    } else {
        assert(nodes.take(i) =~= nodes);
    }
}

proof fn lemma_path_none(nodes: Seq<Seq<u8>>, i: int)
    requires
        0 <= i <= nodes.len(),
        path_nibbles(nodes.take(i)) is None,
    ensures
        path_nibbles(nodes) is None,
    decreases nodes.len() - i,
{
    if i < nodes.len() {
        let t = nodes.take(i + 1);
        assert(t.drop_last() =~= nodes.take(i));
        lemma_path_none(nodes, i + 1);
    } else {
        assert(nodes.take(i) =~= nodes);
    }
}

/// Whether the proof nodes are `walkable`.
pub fn proof_is_walkable(nodes: &Vec<Vec<u8>>) -> (r: bool)
    ensures
        r == walkable(nodes_view(nodes@)),
{
    let ghost all = nodes_view(nodes@);
    let mut total: u64 = 0;
    let mut i: usize = 0;
    while i < nodes.len()
        invariant
            0 <= i <= nodes@.len(),
            all == nodes_view(nodes@),
            total <= 64,
            path_nibbles(all.take(i as int)) == Some(total as nat),
        decreases nodes@.len() - i,
    {
        proof {
            let t = all.take(i + 1);
            assert(t.drop_last() =~= all.take(i as int));
            assert(t.last() == nodes@[i as int]@);
        }
        match node_nibbles_of(nodes[i].as_slice()) {
            None => {
                proof {
                    lemma_path_none(all, i + 1);
                }
                return false;
            },
            Some(c) => {
                if c > 64 - total {
                    proof {
                        lemma_path_past_bound(all, i + 1, (total + c) as nat);
                    }
                    return false;
                }
                total = total + c;
            },
        }
        i += 1;
    }
    assert(all.take(i as int) =~= all);
    true
}

} // verus!
