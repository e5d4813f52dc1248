//! Adjacency-list compaction of the edge list: edges sorted by source
//! anchor, edge type, and destination, then grouped. Expanding the groups
//! yields exactly the edges that went in.

use vstd::prelude::*;

use crate::model::{AdjacencyEntry, AdjacencyGroup, EdgeType, EdgeV, ReferenceEdge, edge_type_rank};
use crate::text;

verus! {

/// Strict lexicographic order on character sequences by code point.
pub open spec fn seq_lt(a: Seq<char>, b: Seq<char>) -> bool
    decreases a.len(),
{
    if b.len() == 0 {
        false
    } else if a.len() == 0 {
        true
    } else if (a[0] as int) < (b[0] as int) {
        true
    } else if (a[0] as int) > (b[0] as int) {
        false
    } else {
        seq_lt(a.drop_first(), b.drop_first())
    }
}

pub proof fn lemma_seq_lt_total(a: Seq<char>, b: Seq<char>)
    ensures
        seq_lt(a, b) || seq_lt(b, a) || a == b,
    decreases a.len(),
{
    if a.len() > 0 && b.len() > 0 && a[0] == b[0] {
        lemma_seq_lt_total(a.drop_first(), b.drop_first());
        if !seq_lt(a, b) && !seq_lt(b, a) {
            assert(a.drop_first() == b.drop_first());
            assert(a =~= seq![a[0]] + a.drop_first());
            assert(b =~= seq![b[0]] + b.drop_first());
        }
    }
}

pub proof fn lemma_seq_lt_irrefl(a: Seq<char>)
    ensures
        !seq_lt(a, a),
    decreases a.len(),
{
    if a.len() > 0 {
        lemma_seq_lt_irrefl(a.drop_first());
    }
}

pub proof fn lemma_seq_lt_trans(a: Seq<char>, b: Seq<char>, c: Seq<char>)
    requires
        seq_lt(a, b),
        seq_lt(b, c),
    ensures
        seq_lt(a, c),
    decreases a.len(),
{
    if c.len() > 0 && a.len() > 0 && b.len() > 0 {
        if a[0] == b[0] && b[0] == c[0] {
            lemma_seq_lt_trans(a.drop_first(), b.drop_first(), c.drop_first());
        }
    }
}

/// Total order on edge views: by source, then destination, then edge type.
pub open spec fn edge_le(a: EdgeV, b: EdgeV) -> bool {
    ||| seq_lt(a.from, b.from)
    ||| (a.from == b.from && seq_lt(a.to, b.to))
    ||| (a.from == b.from && a.to == b.to && edge_type_rank(a.edge_type) <= edge_type_rank(
        b.edge_type,
    ))
}

pub proof fn lemma_edge_le_total(a: EdgeV, b: EdgeV)
    ensures
        edge_le(a, b) || edge_le(b, a),
{
    lemma_seq_lt_total(a.from, b.from);
    lemma_seq_lt_total(a.to, b.to);
}

pub proof fn lemma_edge_le_trans(a: EdgeV, b: EdgeV, c: EdgeV)
    requires
        edge_le(a, b),
        edge_le(b, c),
    ensures
        edge_le(a, c),
{
    lemma_seq_lt_irrefl(a.from);
    lemma_seq_lt_irrefl(b.from);
    lemma_seq_lt_irrefl(c.from);
    lemma_seq_lt_irrefl(a.to);
    lemma_seq_lt_irrefl(b.to);
    lemma_seq_lt_irrefl(c.to);
    if seq_lt(a.from, b.from) && seq_lt(b.from, c.from) {
        lemma_seq_lt_trans(a.from, b.from, c.from);
    }
    if a.from == b.from && a.to != b.to && b.from == c.from && b.to != c.to {
        lemma_seq_lt_trans(a.to, b.to, c.to);
    }
}

/// Grouping order on edge views: by source, then edge type, then
/// destination; this is the order the adjacency list is built in.
pub open spec fn adj_edge_le(a: EdgeV, b: EdgeV) -> bool {
    ||| seq_lt(a.from, b.from)
    ||| (a.from == b.from && edge_type_rank(a.edge_type) < edge_type_rank(b.edge_type))
    ||| (a.from == b.from && a.edge_type == b.edge_type && (seq_lt(a.to, b.to) || a.to == b.to))
}

pub proof fn lemma_adj_edge_le_total(a: EdgeV, b: EdgeV)
    ensures
        adj_edge_le(a, b) || adj_edge_le(b, a),
{
    lemma_seq_lt_total(a.from, b.from);
    lemma_seq_lt_total(a.to, b.to);
}

pub proof fn lemma_adj_edge_le_trans(a: EdgeV, b: EdgeV, c: EdgeV)
    requires
        adj_edge_le(a, b),
        adj_edge_le(b, c),
    ensures
        adj_edge_le(a, c),
{
    lemma_seq_lt_irrefl(a.from);
    lemma_seq_lt_irrefl(b.from);
    lemma_seq_lt_irrefl(c.from);
    lemma_seq_lt_irrefl(a.to);
    lemma_seq_lt_irrefl(b.to);
    lemma_seq_lt_irrefl(c.to);
    if seq_lt(a.from, b.from) && seq_lt(b.from, c.from) {
        lemma_seq_lt_trans(a.from, b.from, c.from);
    }
    if a.from == b.from && b.from == c.from && a.edge_type == b.edge_type && b.edge_type
        == c.edge_type && seq_lt(a.to, b.to) && seq_lt(b.to, c.to) {
        lemma_seq_lt_trans(a.to, b.to, c.to);
    }
}

/// The order the sort uses: the grouping order when `by_type` is set, the
/// flat order otherwise.
pub open spec fn order_le(by_type: bool, a: EdgeV, b: EdgeV) -> bool {
    if by_type {
        adj_edge_le(a, b)
    } else {
        edge_le(a, b)
    }
}

pub proof fn lemma_order_le_total(by_type: bool, a: EdgeV, b: EdgeV)
    ensures
        order_le(by_type, a, b) || order_le(by_type, b, a),
{
    lemma_edge_le_total(a, b);
    lemma_adj_edge_le_total(a, b);
}

pub proof fn lemma_order_le_trans(by_type: bool, a: EdgeV, b: EdgeV, c: EdgeV)
    requires
        order_le(by_type, a, b),
        order_le(by_type, b, c),
    ensures
        order_le(by_type, a, c),
{
    if by_type {
        lemma_adj_edge_le_trans(a, b, c);
    } else {
        lemma_edge_le_trans(a, b, c);
    }
}

/// Pairwise sortedness of an edge sequence.
pub open spec fn edges_sorted(s: Seq<EdgeV>) -> bool {
    forall|i: int, j: int| 0 <= i < j < s.len() ==> edge_le(#[trigger] s[i], #[trigger] s[j])
}

/// Pairwise sortedness in the chosen order.
pub open spec fn edges_sorted_by(by_type: bool, s: Seq<EdgeV>) -> bool {
    forall|i: int, j: int|
        0 <= i < j < s.len() ==> order_le(by_type, #[trigger] s[i], #[trigger] s[j])
}

proof fn lemma_seq_lt_from_diff(a: Seq<char>, b: Seq<char>, i: int)
    requires
        0 <= i <= a.len(),
        0 <= i <= b.len(),
        forall|j: int| 0 <= j < i ==> a[j] == b[j],
        (i < a.len() && i < b.len() && (a[i] as int) < (b[i] as int)) || (i == a.len() && i
            < b.len()),
    ensures
        seq_lt(a, b),
    decreases i,
{
    if i == 0 {
    } else {
        assert(a[0] == b[0]);
        assert forall|j: int| 0 <= j < i - 1 implies a.drop_first()[j] == b.drop_first()[j] by {
            assert(a[j + 1] == b[j + 1]);
        }
        lemma_seq_lt_from_diff(a.drop_first(), b.drop_first(), i - 1);
    }
}

/// Three-way comparison of two character vectors by code point.
fn cmp_chars(x: &Vec<char>, y: &Vec<char>) -> (r: i8)
    ensures
        r == -1 ==> seq_lt(x@, y@),
        r == 0 ==> x@ == y@,
        r == 1 ==> seq_lt(y@, x@),
        r == -1 || r == 0 || r == 1,
{
    let mut i: usize = 0;
    while i < x.len() && i < y.len()
        invariant
            i <= x@.len(),
            i <= y@.len(),
            forall|j: int| 0 <= j < i ==> x@[j] == y@[j],
        decreases x.len() - i,
    {
        let xc = x[i];
        let yc = y[i];
        if xc < yc {
            proof {
                lemma_seq_lt_from_diff(x@, y@, i as int);
            }
            return -1;
        }
        if xc > yc {
            proof {
                lemma_seq_lt_from_diff(y@, x@, i as int);
            }
            return 1;
        }
        proof {
            assert(x@[i as int] == y@[i as int]);
        }
        i += 1;
    }
    if x.len() < y.len() {
        proof {
            lemma_seq_lt_from_diff(x@, y@, x@.len() as int);
        }
        -1
    } else if x.len() > y.len() {
        proof {
            lemma_seq_lt_from_diff(y@, x@, y@.len() as int);
        }
        1
    } else {
        proof {
            assert(x@ =~= y@);
        }
        0
    }
}

/// Whether edge `a` sorts at or before edge `b` in the chosen order.
fn order_le_exec(by_type: bool, a: &ReferenceEdge, b: &ReferenceEdge) -> (r: bool)
    ensures
        r == order_le(by_type, a@, b@),
{
    let fa = text::chars_of(a.from.as_str());
    let fb = text::chars_of(b.from.as_str());
    proof {
        assert(fa@ == a@.from);
        assert(fb@ == b@.from);
    }
    let cf = cmp_chars(&fa, &fb);
    if cf == -1 {
        return true;
    }
    if cf == 1 {
        proof {
            lemma_seq_lt_trans_irrefl_helper(a@.from, b@.from);
        }
        return false;
    }
    proof {
        assert(a@.from == b@.from);
        lemma_seq_lt_irrefl(a@.from);
    }
    if by_type {
        let ra = a.edge_type.rank();
        let rb = b.edge_type.rank();
        if ra < rb {
            return true;
        }
        if ra > rb {
            return false;
        }
        proof {
            assert(edge_type_rank(a@.edge_type) == edge_type_rank(b@.edge_type));
            assert(a@.edge_type == b@.edge_type);
        }
        let ta = text::chars_of(a.to.as_str());
        let tb = text::chars_of(b.to.as_str());
        proof {
            assert(ta@ == a@.to);
            assert(tb@ == b@.to);
        }
        let ct = cmp_chars(&ta, &tb);
        if ct == 1 {
            proof {
                lemma_seq_lt_trans_irrefl_helper(a@.to, b@.to);
            }
            return false;
        }
        true
    } else {
        let ta = text::chars_of(a.to.as_str());
        let tb = text::chars_of(b.to.as_str());
        proof {
            assert(ta@ == a@.to);
            assert(tb@ == b@.to);
        }
        let ct = cmp_chars(&ta, &tb);
        if ct == -1 {
            return true;
        }
        if ct == 1 {
            proof {
                lemma_seq_lt_trans_irrefl_helper(a@.to, b@.to);
            }
            return false;
        }
        proof {
            assert(a@.to == b@.to);
            lemma_seq_lt_irrefl(a@.to);
        }
        a.edge_type.rank() <= b.edge_type.rank()
    }
}

/// Strict order one way rules out the other and equality.
proof fn lemma_seq_lt_trans_irrefl_helper(a: Seq<char>, b: Seq<char>)
    requires
        seq_lt(b, a),
    ensures
        !seq_lt(a, b),
        a != b,
{
    lemma_seq_lt_irrefl(a);
    if seq_lt(a, b) {
        lemma_seq_lt_trans(a, b, a);
    }
    if a == b {
        assert(seq_lt(a, a));
    }
}

proof fn lemma_insert_multiset<A>(s: Seq<A>, i: int, x: A)
    requires
        0 <= i <= s.len(),
    ensures
        s.insert(i, x).to_multiset() == s.to_multiset().insert(x),
    decreases s.len() - i,
{
    broadcast use vstd::seq_lib::group_to_multiset_ensures;

    if i == s.len() {
        assert(s.insert(i, x) =~= s.push(x));
    } else {
        // insert before the last element, then reason via push on the prefix
        let l = s.last();
        let s0 = s.drop_last();
        lemma_insert_multiset(s0, i, x);
        assert(s.insert(i, x) =~= s0.insert(i, x).push(l));
        assert(s =~= s0.push(l));
        assert(s0.insert(i, x).push(l).to_multiset() =~= s0.insert(i, x).to_multiset().insert(l));
        assert(s0.push(l).to_multiset() =~= s0.to_multiset().insert(l));
    }
}

/// Sort edges in the chosen order, keeping the multiset of edges.
pub fn sort_edges_by(by_type: bool, edges: Vec<ReferenceEdge>) -> (r: Vec<ReferenceEdge>)
    ensures
        r.deep_view().to_multiset() == edges.deep_view().to_multiset(),
        edges_sorted_by(by_type, r.deep_view()),
{
    broadcast use vstd::seq_lib::group_to_multiset_ensures;

    let ghost ev = edges.deep_view();
    let mut out: Vec<ReferenceEdge> = Vec::new();
    let mut i: usize = 0;
    proof {
        assert(ev.subrange(0, 0) =~= Seq::<EdgeV>::empty());
        assert(out.deep_view() =~= Seq::<EdgeV>::empty());
        assert(Seq::<EdgeV>::empty().to_multiset() =~= ev.subrange(0, 0).to_multiset());
    }
    while i < edges.len()
        invariant
            ev == edges.deep_view(),
            edges@.len() == ev.len(),
            i <= ev.len(),
            out.deep_view().to_multiset() == ev.subrange(0, i as int).to_multiset(),
            edges_sorted_by(by_type, out.deep_view()),
        decreases edges.len() - i,
    {
        let e = edges[i].clone();
        proof {
            assert(e@ == ev[i as int]);
        }
        let mut pos: usize = 0;
        while pos < out.len() && order_le_exec(by_type, &out[pos], &e)
            invariant
                pos <= out@.len(),
                out@.len() == out.deep_view().len(),
                forall|j: int|
                    0 <= j < pos ==> order_le(by_type, #[trigger] out.deep_view()[j], e@),
            decreases out.len() - pos,
        {
            proof {
                assert(out@[pos as int]@ == out.deep_view()[pos as int]);
            }
            pos += 1;
        }
        let ghost before = out.deep_view();
        proof {
            if (pos as int) < before.len() {
                assert(out@[pos as int]@ == before[pos as int]);
                assert(!order_le(by_type, before[pos as int], e@));
            }
        }
        out.insert(pos, e);
        proof {
            assert(out.deep_view() =~= before.insert(pos as int, e@));
            lemma_insert_multiset(before, pos as int, e@);
            let sub = ev.subrange(0, i as int);
            sub.to_multiset_ensures();
            assert(ev.subrange(0, i + 1) =~= sub.push(ev[i as int]));
            assert(sub.push(ev[i as int]).to_multiset() =~= sub.to_multiset().insert(
                ev[i as int],
            ));
            let nv = out.deep_view();
            assert forall|a: int, b: int| 0 <= a < b < nv.len() implies order_le(
                by_type,
                #[trigger] nv[a],
                #[trigger] nv[b],
            ) by {
                if b < pos {
                    assert(order_le(by_type, before[a], before[b]));
                } else if a < pos && b == pos {
                    assert(order_le(by_type, before[a], e@));
                } else if a < pos && b > pos {
                    assert(order_le(by_type, before[a], before[b - 1]));
                } else if a == pos && b > pos {
                    // the scan stopped because e sorts before the element at pos
                    if pos < before.len() {
                        lemma_order_le_total(by_type, e@, before[pos as int]);
                        if b == pos + 1 {
                            assert(order_le(by_type, e@, before[pos as int]));
                        } else {
                            lemma_order_le_trans(
                                by_type,
                                e@,
                                before[pos as int],
                                before[b - 1],
                            );
                        }
                    }
                } else {
                    assert(order_le(by_type, before[a - 1], before[b - 1]));
                }
            }
        }
        i += 1;
    }
    proof {
        assert(ev.subrange(0, ev.len() as int) =~= ev);
    }
    out
}


/// Concatenation of a sequence of edge sequences, in order.
pub open spec fn cat_all(ss: Seq<Seq<EdgeV>>) -> Seq<EdgeV>
    decreases ss.len(),
{
    if ss.len() == 0 {
        Seq::empty()
    } else {
        cat_all(ss.drop_last()) + ss.last()
    }
}

proof fn lemma_cat_all_push(ss: Seq<Seq<EdgeV>>, x: Seq<EdgeV>)
    ensures
        cat_all(ss.push(x)) == cat_all(ss) + x,
{
    assert(ss.push(x).drop_last() =~= ss);
    assert(ss.push(x).last() == x);
}

proof fn lemma_cat_all_update_last(ss: Seq<Seq<EdgeV>>, x: Seq<EdgeV>)
    requires
        ss.len() > 0,
    ensures
        cat_all(ss.update(ss.len() - 1, x)) == cat_all(ss.drop_last()) + x,
{
    assert(ss.update(ss.len() - 1, x).drop_last() =~= ss.drop_last());
    assert(ss.update(ss.len() - 1, x).last() == x);
}

/// The edges one adjacency group stands for.
pub open spec fn group_edges(from: Seq<char>, g: crate::model::GroupV) -> Seq<EdgeV> {
    g.targets.map_values(|t: Seq<char>| EdgeV { from: from, to: t, edge_type: g.edge_type })
}

/// The edges one adjacency entry stands for.
pub open spec fn entry_edges(en: crate::model::EntryV) -> Seq<EdgeV> {
    cat_all(en.groups.map_values(|g: crate::model::GroupV| group_edges(en.from, g)))
}

/// The edges a whole adjacency list stands for, re-expanded in order.
pub open spec fn adjacency_edges(entries: Seq<crate::model::EntryV>) -> Seq<EdgeV> {
    cat_all(entries.map_values(|en: crate::model::EntryV| entry_edges(en)))
}

/// Structural ordering of an adjacency list: entries strictly ordered by
/// source, groups strictly ordered by edge type, targets ordered.
pub open spec fn entries_sorted(entries: Seq<crate::model::EntryV>) -> bool {
    &&& forall|a: int, b: int|
        0 <= a < b < entries.len() ==> seq_lt(
            (#[trigger] entries[a]).from,
            (#[trigger] entries[b]).from,
        )
    &&& forall|k: int, a: int, b: int|
        0 <= k < entries.len() && 0 <= a < b < (#[trigger] entries[k]).groups.len()
            ==> edge_type_rank((#[trigger] entries[k].groups[a]).edge_type) < edge_type_rank(
            (#[trigger] entries[k].groups[b]).edge_type,
        )
    &&& forall|k: int, g: int, a: int, b: int|
        0 <= k < entries.len() && 0 <= g < entries[k].groups.len() && 0 <= a < b
            < entries[k].groups[g].targets.len() ==> (seq_lt(
            #[trigger] entries[k].groups[g].targets[a],
            #[trigger] entries[k].groups[g].targets[b],
        ) || entries[k].groups[g].targets[a] == entries[k].groups[g].targets[b])
}

/// Group a list of edges into an adjacency list holding exactly the same
/// edges, sorted by source anchor, edge type, and destination.
#[verifier::rlimit(100)]
pub fn build_adjacency(edges: &Vec<ReferenceEdge>) -> (r: Vec<AdjacencyEntry>)
    ensures
        adjacency_edges(r.deep_view()).to_multiset() == edges.deep_view().to_multiset(),
        entries_sorted(r.deep_view()),
{
    let mut copy: Vec<ReferenceEdge> = Vec::new();
    let mut c: usize = 0;
    while c < edges.len()
        invariant
            c <= edges@.len(),
            copy.deep_view() == edges.deep_view().subrange(0, c as int),
        decreases edges.len() - c,
    {
        let e = edges[c].clone();
        proof {
            assert(e@ == edges.deep_view()[c as int]);
        }
        let ghost before = copy.deep_view();
        copy.push(e);
        proof {
            assert(copy.deep_view() =~= before.push(e@));
            assert(copy.deep_view() =~= edges.deep_view().subrange(0, c + 1));
        }
        c += 1;
    }
    proof {
        assert(edges.deep_view().subrange(0, edges.deep_view().len() as int) =~= edges.deep_view());
    }
    let sorted = sort_edges_by(true, copy);
    let ghost sv = sorted.deep_view();
    let mut entries: Vec<AdjacencyEntry> = Vec::new();
    let mut i: usize = 0;
    proof {
        assert(entries.deep_view() =~= Seq::<crate::model::EntryV>::empty());
        assert(entries.deep_view().map_values(|en: crate::model::EntryV| entry_edges(en))
            =~= Seq::<Seq<EdgeV>>::empty());
        assert(adjacency_edges(entries.deep_view()) =~= sv.subrange(0, 0));
    }
    while i < sorted.len()
        invariant
            sv == sorted.deep_view(),
            sorted@.len() == sv.len(),
            edges_sorted_by(true, sv),
            i <= sv.len(),
            adjacency_edges(entries.deep_view()) == sv.subrange(0, i as int),
            entries_sorted(entries.deep_view()),
            (i > 0) == (entries.deep_view().len() > 0),
            i > 0 ==> {
                let last = entries.deep_view().last();
                &&& last.groups.len() > 0
                &&& last.groups.last().targets.len() > 0
                &&& last.from == sv[i - 1].from
                &&& last.groups.last().edge_type == sv[i - 1].edge_type
                &&& last.groups.last().targets.last() == sv[i - 1].to
                &&& forall|g: int|
                    0 <= g < last.groups.len() ==> (#[trigger] last.groups[g]).targets.len() > 0
            },
        decreases sorted.len() - i,
    {
        let ghost ev = entries.deep_view();
        let e = &sorted[i];
        proof {
            assert(e@ == sv[i as int]);
            assert(sv.subrange(0, i + 1) =~= sv.subrange(0, i as int).push(sv[i as int]));
        }
        let mut start_new_entry = true;
        if entries.len() > 0 {
            let last_ref = &entries[entries.len() - 1];
            if last_ref.from.eq(&e.from) {
                start_new_entry = false;
            }
        }
        if start_new_entry {
            let mut targets: Vec<String> = Vec::new();
            targets.push(e.to.clone());
            let group = AdjacencyGroup { edge_type: e.edge_type, targets };
            let mut groups: Vec<AdjacencyGroup> = Vec::new();
            groups.push(group);
            let entry = AdjacencyEntry { from: e.from.clone(), groups };
            proof {
                assert(entry@.groups =~~= seq![
                    crate::model::GroupV {
                        edge_type: sv[i as int].edge_type,
                        targets: seq![sv[i as int].to],
                    },
                ]);
                assert(entry@.from == sv[i as int].from);
                assert(group_edges(entry@.from, entry@.groups[0]) =~~= seq![sv[i as int]]);
                assert(entry@.groups.map_values(
                    |g: crate::model::GroupV| group_edges(entry@.from, g),
                ) =~~= seq![seq![sv[i as int]]]);
                let single: Seq<Seq<EdgeV>> = seq![seq![sv[i as int]]];
                assert(single.drop_last() =~= Seq::<Seq<EdgeV>>::empty());
                assert(cat_all(Seq::<Seq<EdgeV>>::empty()) =~= Seq::<EdgeV>::empty());
                assert(cat_all(single) =~= seq![sv[i as int]]);
                assert(entry_edges(entry@) =~~= seq![sv[i as int]]);
            }
            entries.push(entry);
            proof {
                let nev = entries.deep_view();
                assert(nev =~= ev.push(entry@));
                assert(nev.map_values(|en: crate::model::EntryV| entry_edges(en)) =~= ev.map_values(
                    |en: crate::model::EntryV| entry_edges(en),
                ).push(entry_edges(entry@)));
                lemma_cat_all_push(
                    ev.map_values(|en: crate::model::EntryV| entry_edges(en)),
                    entry_edges(entry@),
                );
                assert(adjacency_edges(nev) =~= sv.subrange(0, i + 1));
                // ordering: a fresh source anchor is strictly greater
                if i > 0 {
                    assert(order_le(true, sv[i - 1], sv[i as int]));
                    assert(seq_lt(ev.last().from, entry@.from));
                    assert forall|a: int, b: int|
                        0 <= a < b < nev.len() implies seq_lt(
                        (#[trigger] nev[a]).from,
                        (#[trigger] nev[b]).from,
                    ) by {
                        if b < nev.len() - 1 {
                            assert(seq_lt(ev[a].from, ev[b].from));
                        } else if a < nev.len() - 1 {
                            if a < ev.len() - 1 {
                                lemma_seq_lt_trans(ev[a].from, ev.last().from, entry@.from);
                            }
                        }
                    }
                }
                assert(entries_sorted(nev));
            }
        } else {
            proof {
                assert(ev.last().from == sv[i as int].from);
                assert(sv[i - 1].from == sv[i as int].from);
                lemma_seq_lt_irrefl(sv[i as int].from);
                assert(order_le(true, sv[i - 1], sv[i as int]));
            }
            let mut entry = match entries.pop() {
                Some(en) => en,
                None => {
                    proof {
                        assert(false);
                    }
                    AdjacencyEntry { from: String::new(), groups: Vec::new() }
                },
            };
            let ghost en0 = entry@;
            proof {
                assert(en0 == ev.last());
                assert(ev.drop_last() =~= entries.deep_view());
            }
            let same_group = entry.groups[entry.groups.len() - 1].edge_type.rank()
                == e.edge_type.rank();
            proof {
                assert(entry.groups@[entry.groups@.len() - 1]@ == en0.groups.last());
                if edge_type_rank(en0.groups.last().edge_type) == edge_type_rank(e@.edge_type) {
                    assert(en0.groups.last().edge_type == e@.edge_type);
                }
            }
            if same_group {
                let mut group = match entry.groups.pop() {
                    Some(g) => g,
                    None => {
                        proof {
                            assert(false);
                        }
                        AdjacencyGroup { edge_type: EdgeType::Calls, targets: Vec::new() }
                    },
                };
                let ghost g0 = group@;
                proof {
                    assert(g0 == en0.groups.last());
                    assert(entry.groups.deep_view() =~= en0.groups.drop_last());
                }
                group.targets.push(e.to.clone());
                proof {
                    assert(group@.targets =~~= g0.targets.push(sv[i as int].to));
                    assert(group_edges(en0.from, group@) =~~= group_edges(en0.from, g0).push(
                        sv[i as int],
                    ));
                }
                let ghost gmid = group@;
                entry.groups.push(group);
                proof {
                    assert(entry.groups.deep_view() =~= en0.groups.update(
                        en0.groups.len() - 1,
                        gmid,
                    ));
                }
                proof {
                    let f = |g: crate::model::GroupV| group_edges(en0.from, g);
                    assert(entry@.groups.map_values(f) =~= en0.groups.map_values(f).update(
                        en0.groups.len() - 1,
                        group_edges(en0.from, gmid),
                    ));
                    lemma_cat_all_update_last(
                        en0.groups.map_values(f),
                        group_edges(en0.from, gmid),
                    );
                    assert(en0.groups.map_values(f).drop_last() =~= en0.groups.drop_last()
                        .map_values(f));
                    assert(cat_all(en0.groups.map_values(f)) == cat_all(
                        en0.groups.map_values(f).drop_last(),
                    ) + en0.groups.map_values(f).last());
                    assert(entry_edges(entry@) =~= entry_edges(en0).push(sv[i as int]));
                }
            } else {
                let mut targets: Vec<String> = Vec::new();
                targets.push(e.to.clone());
                let group = AdjacencyGroup { edge_type: e.edge_type, targets };
                proof {
                    assert(group@ =~~= crate::model::GroupV {
                        edge_type: sv[i as int].edge_type,
                        targets: seq![sv[i as int].to],
                    });
                    assert(group_edges(en0.from, group@) =~~= seq![sv[i as int]]);
                }
                let ghost gnew = group@;
                entry.groups.push(group);
                proof {
                    assert(entry.groups.deep_view() =~= en0.groups.push(gnew));
                    let f = |g: crate::model::GroupV| group_edges(en0.from, g);
                    assert(entry@.groups.map_values(f) =~= en0.groups.map_values(f).push(
                        group_edges(en0.from, gnew),
                    ));
                    lemma_cat_all_push(en0.groups.map_values(f), group_edges(en0.from, gnew));
                    assert(entry_edges(entry@) =~= entry_edges(en0).push(sv[i as int]));
                }
            }
            let ghost emid = entry@;
            proof {
                assert(emid.from == en0.from);
                assert(entry_edges(emid) == entry_edges(en0).push(sv[i as int]));
            }
            entries.push(entry);
            proof {
                let nev = entries.deep_view();
                assert(nev =~= ev.update(ev.len() - 1, emid));
                let fe = |en: crate::model::EntryV| entry_edges(en);
                assert(nev.map_values(fe) =~= ev.map_values(fe).update(
                    ev.len() - 1,
                    entry_edges(emid),
                ));
                lemma_cat_all_update_last(ev.map_values(fe), entry_edges(emid));
                assert(ev.map_values(fe).drop_last() =~= ev.drop_last().map_values(fe));
                assert(cat_all(ev.map_values(fe)) == cat_all(ev.map_values(fe).drop_last())
                    + ev.map_values(fe).last());
                assert(adjacency_edges(nev) =~= adjacency_edges(ev).push(sv[i as int]));
                assert(adjacency_edges(nev) =~= sv.subrange(0, i + 1));
                // ordering within the touched entry
                assert(order_le(true, sv[i - 1], sv[i as int]));
                assert(entries_sorted(nev)) by {
                    assert forall|a: int, b: int|
                        0 <= a < b < nev.len() implies seq_lt(
                        (#[trigger] nev[a]).from,
                        (#[trigger] nev[b]).from,
                    ) by {
                        assert(nev[a] == ev[a] || (a == nev.len() - 1));
                        if b < nev.len() - 1 {
                            assert(seq_lt(ev[a].from, ev[b].from));
                        } else {
                            assert(seq_lt(ev[a].from, ev[b].from));
                            assert(nev[b].from == ev[b].from);
                        }
                    }
                    assert forall|k: int, a: int, b: int|
                        0 <= k < nev.len() && 0 <= a < b < (#[trigger] nev[k]).groups.len()
                            implies edge_type_rank((#[trigger] nev[k].groups[a]).edge_type)
                        < edge_type_rank((#[trigger] nev[k].groups[b]).edge_type) by {
                        if k < nev.len() - 1 {
                            assert(nev[k] == ev[k]);
                            assert(edge_type_rank(ev[k].groups[a].edge_type) < edge_type_rank(
                                ev[k].groups[b].edge_type,
                            ));
                        } else {
                            if b < emid.groups.len() - 1 {
                                assert(edge_type_rank(en0.groups[a].edge_type) < edge_type_rank(
                                    en0.groups[b].edge_type,
                                ));
                            } else {
                                // the last group is either extended in place or
                                // freshly pushed with a strictly greater rank
                                if emid.groups.len() == en0.groups.len() {
                                    assert(edge_type_rank(en0.groups[a].edge_type)
                                        < edge_type_rank(en0.groups[b].edge_type));
                                } else {
                                    if a < en0.groups.len() - 1 {
                                        assert(edge_type_rank(en0.groups[a].edge_type)
                                            < edge_type_rank(en0.groups.last().edge_type));
                                    }
                                    assert(edge_type_rank(en0.groups.last().edge_type)
                                        < edge_type_rank(emid.groups.last().edge_type));
                                }
                            }
                        }
                    }
                    assert forall|k: int, g: int, a: int, b: int|
                        0 <= k < nev.len() && 0 <= g < nev[k].groups.len() && 0 <= a < b
                            < nev[k].groups[g].targets.len() implies (seq_lt(
                        #[trigger] nev[k].groups[g].targets[a],
                        #[trigger] nev[k].groups[g].targets[b],
                    ) || nev[k].groups[g].targets[a] == nev[k].groups[g].targets[b]) by {
                        if k < nev.len() - 1 {
                            assert(nev[k] == ev[k]);
                            assert(seq_lt(ev[k].groups[g].targets[a], ev[k].groups[g].targets[b])
                                || ev[k].groups[g].targets[a] == ev[k].groups[g].targets[b]);
                        } else {
                            if g < emid.groups.len() - 1 {
                                assert(emid.groups[g] == en0.groups[g]);
                                assert(seq_lt(en0.groups[g].targets[a], en0.groups[g].targets[b])
                                    || en0.groups[g].targets[a] == en0.groups[g].targets[b]);
                            } else {
                                if emid.groups.len() > en0.groups.len() {
                                    // fresh single-target group
                                    assert(emid.groups.last().targets.len() == 1);
                                } else {
                                    let t0 = en0.groups.last().targets;
                                    assert(emid.groups.last().targets =~= t0.push(
                                        sv[i as int].to,
                                    ));
                                    if b < t0.len() {
                                        assert(seq_lt(t0[a], t0[b]) || t0[a] == t0[b]);
                                    } else {
                                        // the previous last target came from the
                                        // previous edge, which sorts at or before
                                        if a < t0.len() - 1 {
                                            assert(seq_lt(t0[a], t0[t0.len() - 1]) || t0[a]
                                                == t0[t0.len() - 1]);
                                        }
                                        assert(t0[t0.len() - 1] == sv[i - 1].to);
                                        assert(seq_lt(sv[i - 1].to, sv[i as int].to) || sv[i
                                            - 1].to == sv[i as int].to);
                                        if a < t0.len() - 1 && seq_lt(t0[a], t0[t0.len() - 1])
                                            && seq_lt(t0[t0.len() - 1], sv[i as int].to) {
                                            lemma_seq_lt_trans(
                                                t0[a],
                                                t0[t0.len() - 1],
                                                sv[i as int].to,
                                            );
                                        }
                                    }
                                }
                            }
                        }
                    }
                }
            }
        }
        i += 1;
    }
    proof {
        assert(sv.subrange(0, sv.len() as int) =~= sv);
    }
    entries
}

/// Re-expand an adjacency list into the flat edge list it stands for.
pub fn expand_adjacency(entries: &Vec<AdjacencyEntry>) -> (r: Vec<ReferenceEdge>)
    ensures
        r.deep_view() == adjacency_edges(entries.deep_view()),
{
    let ghost env = entries.deep_view();
    let ghost fe = |en: crate::model::EntryV| entry_edges(en);
    let mut out: Vec<ReferenceEdge> = Vec::new();
    let mut i: usize = 0;
    proof {
        assert(env.subrange(0, 0).map_values(fe) =~= Seq::<Seq<EdgeV>>::empty());
        assert(out.deep_view() =~= cat_all(env.subrange(0, 0).map_values(fe)));
    }
    while i < entries.len()
        invariant
            env == entries.deep_view(),
            entries@.len() == env.len(),
            i <= env.len(),
            fe == (|en: crate::model::EntryV| entry_edges(en)),
            out.deep_view() == cat_all(env.subrange(0, i as int).map_values(fe)),
        decreases entries.len() - i,
    {
        let entry = &entries[i];
        let ghost en = env[i as int];
        proof {
            assert(entry@ == en);
        }
        let ghost fg = |g: crate::model::GroupV| group_edges(en.from, g);
        let mut g: usize = 0;
        proof {
            assert(en.groups.subrange(0, 0).map_values(fg) =~= Seq::<Seq<EdgeV>>::empty());
            assert(out.deep_view() =~= cat_all(env.subrange(0, i as int).map_values(fe)) + cat_all(
                en.groups.subrange(0, 0).map_values(fg),
            ));
        }
        while g < entry.groups.len()
            invariant
                env == entries.deep_view(),
                entries@.len() == env.len(),
                i < env.len(),
                entry == &entries@[i as int],
                en == env[i as int],
                entry@ == en,
                entry.groups@.len() == en.groups.len(),
                g <= en.groups.len(),
                fe == (|en2: crate::model::EntryV| entry_edges(en2)),
                fg == (|g2: crate::model::GroupV| group_edges(en.from, g2)),
                out.deep_view() == cat_all(env.subrange(0, i as int).map_values(fe)) + cat_all(
                    en.groups.subrange(0, g as int).map_values(fg),
                ),
            decreases entry.groups.len() - g,
        {
            let group = &entry.groups[g];
            let ghost gv = en.groups[g as int];
            proof {
                assert(group@ == gv);
            }
            let mut t: usize = 0;
            proof {
                assert(gv.targets.subrange(0, 0).map_values(
                    |tt: Seq<char>| EdgeV { from: en.from, to: tt, edge_type: gv.edge_type },
                ) =~= Seq::<EdgeV>::empty());
            }
            while t < group.targets.len()
                invariant
                    env == entries.deep_view(),
                    entries@.len() == env.len(),
                    i < env.len(),
                    entry == &entries@[i as int],
                    en == env[i as int],
                    entry@ == en,
                    entry.groups@.len() == en.groups.len(),
                    g < en.groups.len(),
                    group == &entry.groups@[g as int],
                    gv == en.groups[g as int],
                    group@ == gv,
                    group.targets@.len() == gv.targets.len(),
                    t <= gv.targets.len(),
                    fe == (|en2: crate::model::EntryV| entry_edges(en2)),
                    fg == (|g2: crate::model::GroupV| group_edges(en.from, g2)),
                    out.deep_view() == cat_all(env.subrange(0, i as int).map_values(fe))
                        + cat_all(en.groups.subrange(0, g as int).map_values(fg))
                        + gv.targets.subrange(0, t as int).map_values(
                        |tt: Seq<char>| EdgeV { from: en.from, to: tt, edge_type: gv.edge_type },
                    ),
                decreases group.targets.len() - t,
            {
                let edge = ReferenceEdge {
                    from: entry.from.clone(),
                    to: group.targets[t].clone(),
                    edge_type: group.edge_type,
                };
                proof {
                    assert(group.targets@[t as int]@ == gv.targets[t as int]);
                    assert(edge@ == EdgeV {
                        from: en.from,
                        to: gv.targets[t as int],
                        edge_type: gv.edge_type,
                    });
                }
                let ghost before = out.deep_view();
                out.push(edge);
                proof {
                    let fmap = |tt: Seq<char>| EdgeV {
                        from: en.from,
                        to: tt,
                        edge_type: gv.edge_type,
                    };
                    assert(out.deep_view() =~= before.push(edge@));
                    assert(gv.targets.subrange(0, t + 1).map_values(fmap) =~= gv.targets.subrange(
                        0,
                        t as int,
                    ).map_values(fmap).push(fmap(gv.targets[t as int])));
                    assert(out.deep_view() =~= cat_all(env.subrange(0, i as int).map_values(fe))
                        + cat_all(en.groups.subrange(0, g as int).map_values(fg))
                        + gv.targets.subrange(0, t + 1).map_values(fmap));
                }
                t += 1;
            }
            proof {
                let fmap = |tt: Seq<char>| EdgeV {
                    from: en.from,
                    to: tt,
                    edge_type: gv.edge_type,
                };
                assert(gv.targets.subrange(0, gv.targets.len() as int) =~= gv.targets);
                assert(gv.targets.map_values(fmap) == group_edges(en.from, gv));
                assert(en.groups.subrange(0, g + 1).map_values(fg) =~= en.groups.subrange(
                    0,
                    g as int,
                ).map_values(fg).push(group_edges(en.from, gv)));
                lemma_cat_all_push(
                    en.groups.subrange(0, g as int).map_values(fg),
                    group_edges(en.from, gv),
                );
                assert(out.deep_view() =~= cat_all(env.subrange(0, i as int).map_values(fe))
                    + cat_all(en.groups.subrange(0, g + 1).map_values(fg)));
            }
            g += 1;
        }
        proof {
            assert(en.groups.subrange(0, en.groups.len() as int) =~= en.groups);
            assert(cat_all(en.groups.map_values(fg)) == entry_edges(en));
            assert(env.subrange(0, i + 1).map_values(fe) =~= env.subrange(0, i as int).map_values(
                fe,
            ).push(entry_edges(en)));
            lemma_cat_all_push(env.subrange(0, i as int).map_values(fe), entry_edges(en));
            assert(out.deep_view() =~= cat_all(env.subrange(0, i + 1).map_values(fe)));
        }
        i += 1;
    }
    proof {
        assert(env.subrange(0, env.len() as int) =~= env);
    }
    out
}

/// Regroup a flat graph's edge list into the adjacency representation; the
/// nodes and metadata are kept, and re-expanding the adjacency list yields
/// exactly the edge set that went in.
pub fn optimize_graph(graph: crate::model::YcgGraph) -> (r: crate::model::YcgGraphOptimized)
    ensures
        r.metadata == graph.metadata,
        r.definitions.deep_view() == graph.definitions.deep_view(),
        adjacency_edges(r.adjacency.deep_view()).to_multiset()
            == graph.references.deep_view().to_multiset(),
        entries_sorted(r.adjacency.deep_view()),
{
    let adjacency = build_adjacency(&graph.references);
    crate::model::YcgGraphOptimized {
        metadata: graph.metadata,
        definitions: graph.definitions,
        adjacency,
    }
}

} // verus!
