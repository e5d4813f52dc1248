//! Semantic filter: removes low-significance nodes (local variables and
//! anonymous blocks) from a graph, together with every edge touching them.

use vstd::prelude::*;

use crate::model::{EdgeV, NodeV, SymbolNode, YcgGraph};
use crate::text;

verus! {

/// A node identifier shaped like an index-generated local variable:
/// `local_`, one or more digits, `_`, and at least one lowercase hex digit,
/// anywhere in the identifier.
pub open spec fn local_id_shape(s: Seq<char>) -> bool {
    exists|i: int, j: int|
        {
            &&& #[trigger] text::matches_at(s, i, "local_"@)
            &&& i + 6 < j < s.len()
            &&& forall|t: int| i + 6 <= t < j ==> text::is_digit(#[trigger] s[t])
            &&& #[trigger] s[j] == '_'
            &&& j + 1 < s.len()
            &&& text::is_hex_lower(s[j + 1])
        }
}

/// A symbol is a local variable when its identifier has the local shape, its
/// name starts with `local_`, or its identifier carries a parameter marker.
pub open spec fn is_local_variable_spec(id: Seq<char>, name: Seq<char>) -> bool {
    ||| local_id_shape(id)
    ||| text::starts_with(name, "local_"@)
    ||| text::contains_sub(id, "().("@)
}

/// A name marks an anonymous block when, lowercased, it is empty, `unknown`,
/// `anonymous`, or prefixed `block_` or `anon_`.
pub open spec fn is_anonymous_block_spec(name: Seq<char>) -> bool {
    ||| name.len() == 0
    ||| text::lower_ascii(name) == "unknown"@
    ||| text::lower_ascii(name) == "anonymous"@
    ||| text::starts_with(text::lower_ascii(name), "block_"@)
    ||| text::starts_with(text::lower_ascii(name), "anon_"@)
}

/// A node survives the semantic filter iff it is neither a local variable nor
/// an anonymous block.
pub open spec fn is_significant_spec(n: NodeV) -> bool {
    !is_local_variable_spec(n.id, n.name) && !is_anonymous_block_spec(n.name)
}

/// Some node of `defs` fails the significance test and carries this id.
pub open spec fn id_removed(defs: Seq<NodeV>, id: Seq<char>) -> bool {
    exists|k: int| 0 <= k < defs.len() && !is_significant_spec(#[trigger] defs[k]) && defs[k].id == id
}

/// The node list after the semantic filter.
pub open spec fn filtered_defs(defs: Seq<NodeV>) -> Seq<NodeV> {
    defs.filter(|n: NodeV| !id_removed(defs, n.id))
}

/// The edge list after the semantic filter, relative to the node list the
/// removal set was collected from.
pub open spec fn filtered_refs(defs: Seq<NodeV>, refs: Seq<EdgeV>) -> Seq<EdgeV> {
    refs.filter(|e: EdgeV| !id_removed(defs, e.from) && !id_removed(defs, e.to))
}

/// Semantic filter for graph compaction.
pub struct SemanticFilter;

impl SemanticFilter {
    /// Whether a symbol id/name pair has local-variable shape.
    pub fn is_local_variable(symbol_id: &str, symbol_name: &str) -> (r: bool)
        ensures
            r == is_local_variable_spec(symbol_id@, symbol_name@),
    {
        let id = text::chars_of(symbol_id);
        let name = text::chars_of(symbol_name);
        if local_id_shape_exec(&id) {
            return true;
        }
        if text::starts_with_exec(&name, &text::chars_of("local_")) {
            return true;
        }
        if text::contains_sub_exec(&id, &text::chars_of("().(")) {
            return true;
        }
        false
    }

    /// Whether a symbol name marks an anonymous block.
    pub fn is_anonymous_block(symbol_name: &str) -> (r: bool)
        ensures
            r == is_anonymous_block_spec(symbol_name@),
    {
        let name = text::chars_of(symbol_name);
        if name.len() == 0 {
            return true;
        }
        let lower = text::lower_ascii_exec(&name);
        if text::chars_eq(&lower, &text::chars_of("unknown")) {
            return true;
        }
        if text::chars_eq(&lower, &text::chars_of("anonymous")) {
            return true;
        }
        if text::starts_with_exec(&lower, &text::chars_of("block_")) {
            return true;
        }
        if text::starts_with_exec(&lower, &text::chars_of("anon_")) {
            return true;
        }
        false
    }

    /// Whether a node survives the semantic filter.
    pub fn is_significant_symbol(node: &SymbolNode) -> (r: bool)
        ensures
            r == is_significant_spec(node@),
    {
        !Self::is_local_variable(node.id.as_str(), node.name.as_str())
            && !Self::is_anonymous_block(node.name.as_str())
    }

    /// Remove insignificant nodes and every edge whose endpoint carries a
    /// removed node's id; metadata and the order of survivors are kept.
    pub fn filter_graph(graph: &mut YcgGraph)
        ensures
            final(graph).metadata == old(graph).metadata,
            final(graph).definitions.deep_view() == filtered_defs(
                old(graph).definitions.deep_view(),
            ),
            final(graph).references.deep_view() == filtered_refs(
                old(graph).definitions.deep_view(),
                old(graph).references.deep_view(),
            ),
    {
        let ghost defs0 = graph.definitions.deep_view();
        let mut removed: Vec<String> = Vec::new();
        let mut i: usize = 0;
        while i < graph.definitions.len()
            invariant
                graph.definitions.deep_view() == defs0,
                graph.definitions@.len() == defs0.len(),
                i <= defs0.len(),
                forall|id: Seq<char>|
                    #[trigger] seq_has_id(removed@, id) <==> id_removed(
                        defs0.subrange(0, i as int),
                        id,
                    ),
            decreases graph.definitions.len() - i,
        {
            let ghost removed0 = removed@;
            let n = &graph.definitions[i];
            proof {
                assert(n@ == defs0[i as int]);
            }
            let significant = Self::is_significant_symbol(n);
            if !significant {
                removed.push(n.id.clone());
            }
            proof {
                let prev = defs0.subrange(0, i as int);
                let pre = defs0.subrange(0, i + 1);
                assert(pre.drop_last() =~= prev);
                assert(pre.last() == defs0[i as int]);
                assert forall|id: Seq<char>| #[trigger] seq_has_id(removed@, id) implies id_removed(
                    pre,
                    id,
                ) by {
                    let k = choose|k: int|
                        0 <= k < removed@.len() && (#[trigger] removed@[k])@ == id;
                    if k < removed0.len() {
                        assert(removed0[k]@ == id);
                        assert(seq_has_id(removed0, id));
                        let m = choose|m: int|
                            0 <= m < prev.len() && !is_significant_spec(#[trigger] prev[m])
                                && prev[m].id == id;
                        assert(!is_significant_spec(pre[m]) && pre[m].id == id);
                    } else {
                        assert(!significant);
                        assert(removed@[k]@ == defs0[i as int].id);
                        assert(!is_significant_spec(pre[i as int]) && pre[i as int].id == id);
                    }
                }
                assert forall|id: Seq<char>| id_removed(pre, id) implies seq_has_id(
                    removed@,
                    id,
                ) by {
                    let k = choose|k: int|
                        0 <= k < pre.len() && !is_significant_spec(#[trigger] pre[k]) && pre[k].id
                            == id;
                    if k < i {
                        assert(!is_significant_spec(prev[k]) && prev[k].id == id);
                        assert(id_removed(prev, id));
                        assert(seq_has_id(removed0, id));
                        let m = choose|m: int|
                            0 <= m < removed0.len() && (#[trigger] removed0[m])@ == id;
                        assert((removed@[m])@ == id);
                    } else {
                        assert(!is_significant_spec(defs0[i as int]));
                        assert(!significant);
                        assert((removed@[removed@.len() - 1])@ == id);
                    }
                }
            }
            i += 1;
        }
        proof {
            assert(defs0.subrange(0, defs0.len() as int) =~= defs0);
        }
        let mut new_defs: Vec<SymbolNode> = Vec::new();
        let mut j: usize = 0;
        while j < graph.definitions.len()
            invariant
                graph.definitions.deep_view() == defs0,
                graph.definitions@.len() == defs0.len(),
                j <= defs0.len(),
                forall|id: Seq<char>| #[trigger] seq_has_id(removed@, id) <==> id_removed(defs0, id),
                new_defs.deep_view() == defs0.subrange(0, j as int).filter(
                    |n: NodeV| !id_removed(defs0, n.id),
                ),
            decreases graph.definitions.len() - j,
        {
            proof {
                reveal(Seq::filter);
                let pre = defs0.subrange(0, j + 1);
                assert(pre.drop_last() =~= defs0.subrange(0, j as int));
                assert(graph.definitions@[j as int]@ == defs0[j as int]);
            }
            let keep = !seq_has_id_exec(&removed, &graph.definitions[j].id);
            if keep {
                let n = graph.definitions[j].clone();
                let ghost before = new_defs.deep_view();
                new_defs.push(n);
                proof {
                    assert(new_defs.deep_view() =~= before.push(n@));
                }
            }
            j += 1;
        }
        proof {
            assert(defs0.subrange(0, defs0.len() as int) =~= defs0);
        }
        let ghost refs0 = graph.references.deep_view();
        let mut new_refs: Vec<crate::model::ReferenceEdge> = Vec::new();
        let mut k: usize = 0;
        while k < graph.references.len()
            invariant
                graph.references.deep_view() == refs0,
                graph.references@.len() == refs0.len(),
                k <= refs0.len(),
                forall|id: Seq<char>| #[trigger] seq_has_id(removed@, id) <==> id_removed(defs0, id),
                new_refs.deep_view() == refs0.subrange(0, k as int).filter(
                    |e: EdgeV| !id_removed(defs0, e.from) && !id_removed(defs0, e.to),
                ),
            decreases graph.references.len() - k,
        {
            proof {
                reveal(Seq::filter);
                let pre = refs0.subrange(0, k + 1);
                assert(pre.drop_last() =~= refs0.subrange(0, k as int));
                assert(graph.references@[k as int]@ == refs0[k as int]);
            }
            let keep = !seq_has_id_exec(&removed, &graph.references[k].from) && !seq_has_id_exec(
                &removed,
                &graph.references[k].to,
            );
            if keep {
                let e = graph.references[k].clone();
                let ghost before = new_refs.deep_view();
                new_refs.push(e);
                proof {
                    assert(new_refs.deep_view() =~= before.push(e@));
                }
            }
            k += 1;
        }
        proof {
            assert(refs0.subrange(0, refs0.len() as int) =~= refs0);
        }
        graph.definitions = new_defs;
        graph.references = new_refs;
    }
}

/// Some element of `ids` views to `id`.
pub open spec fn seq_has_id(ids: Seq<String>, id: Seq<char>) -> bool {
    exists|k: int| 0 <= k < ids.len() && (#[trigger] ids[k])@ == id
}

pub(crate) fn seq_has_id_exec(ids: &Vec<String>, id: &String) -> (r: bool)
    ensures
        r == seq_has_id(ids@, id@),
{
    let mut i: usize = 0;
    while i < ids.len()
        invariant
            forall|k: int| 0 <= k < i ==> (#[trigger] ids@[k])@ != id@,
        decreases ids.len() - i,
    {
        if ids[i].eq(id) {
            return true;
        }
        i += 1;
    }
    false
}

fn local_id_shape_exec(v: &Vec<char>) -> (r: bool)
    ensures
        r == local_id_shape(v@),
{
    let pat = text::chars_of("local_");
    let mut i: usize = 0;
    while i < v.len()
        invariant
            pat@ == "local_"@,
            forall|ii: int, j: int|
                {
                    &&& #[trigger] text::matches_at(v@, ii, "local_"@)
                    &&& ii < i
                    &&& ii + 6 < j < v@.len()
                    &&& forall|t: int| ii + 6 <= t < j ==> text::is_digit(#[trigger] v@[t])
                    &&& #[trigger] v@[j] == '_'
                    &&& j + 1 < v@.len()
                    &&& text::is_hex_lower(v@[j + 1])
                } ==> false,
        decreases v.len() - i,
    {
        if check_local_at(v, &pat, i) {
            return true;
        }
        i += 1;
    }
    false
}

/// Whether the local-variable pattern matches starting exactly at `i`.
fn check_local_at(v: &Vec<char>, pat: &Vec<char>, i: usize) -> (r: bool)
    requires
        pat@ == "local_"@,
    ensures
        r == exists|j: int|
            {
                &&& text::matches_at(v@, i as int, "local_"@)
                &&& i + 6 < j < v@.len()
                &&& forall|t: int| i + 6 <= t < j ==> text::is_digit(#[trigger] v@[t])
                &&& #[trigger] v@[j] == '_'
                &&& j + 1 < v@.len()
                &&& text::is_hex_lower(v@[j + 1])
            },
        r ==> local_id_shape(v@),
{
    proof {
        reveal_strlit("local_");
    }
    if !text::check_at(v, i, pat) {
        return false;
    }
    let total = v.len();
    proof {
        assert(i + 6 <= total);
    }
    let start = i + 6;
    let mut j: usize = start;
    while j < v.len() && text::digit_exec(v[j])
        invariant
            i + 6 <= j <= v@.len(),
            forall|t: int| i + 6 <= t < j ==> text::is_digit(#[trigger] v@[t]),
        decreases v.len() - j,
    {
        j += 1;
    }
    // `j` is the end of the maximal digit run after the prefix.
    if j == start {
        // the pattern needs at least one digit
        proof {
            assert forall|jj: int|
                {
                    &&& i + 6 < jj < v@.len()
                    &&& forall|t: int| i + 6 <= t < jj ==> text::is_digit(#[trigger] v@[t])
                    &&& #[trigger] v@[jj] == '_'
                    &&& jj + 1 < v@.len()
                    &&& text::is_hex_lower(v@[jj + 1])
                } implies false by {
                if i + 6 < jj {
                    assert(text::is_digit(v@[i + 6]));
                }
            }
        }
        return false;
    }
    if j < v.len() && v[j] == '_' && j + 1 < v.len() && text::hex_lower_exec(v[j + 1]) {
        proof {
            assert(local_id_shape(v@));
        }
        return true;
    }
    proof {
        assert forall|jj: int|
            {
                &&& i + 6 < jj < v@.len()
                &&& forall|t: int| i + 6 <= t < jj ==> text::is_digit(#[trigger] v@[t])
                &&& #[trigger] v@[jj] == '_'
                &&& jj + 1 < v@.len()
                &&& text::is_hex_lower(v@[jj + 1])
            } implies false by {
            // any qualifying `jj` would have to end the maximal digit run at `j`
            if jj < j {
                assert(text::is_digit(v@[jj]));
            } else if jj > j {
                assert(text::is_digit(v@[j as int]));
            }
        }
    }
    false
}

/// Every element of a filtered sequence comes from the original.
proof fn lemma_filter_subset<A>(s: Seq<A>, pred: spec_fn(A) -> bool, x: A)
    requires
        s.filter(pred).contains(x),
    ensures
        s.contains(x),
    decreases s.len(),
{
    reveal(Seq::filter);
    if s.len() > 0 {
        if s.drop_last().filter(pred).contains(x) {
            lemma_filter_subset(s.drop_last(), pred, x);
            let k = choose|k: int| 0 <= k < s.drop_last().len() && s.drop_last()[k] == x;
            assert(s[k] == x);
        } else {
            assert(s.last() == x);
        }
    }
}

/// A filter whose predicate holds of every element changes nothing.
proof fn lemma_filter_all<A>(s: Seq<A>, pred: spec_fn(A) -> bool)
    requires
        forall|k: int| 0 <= k < s.len() ==> pred(#[trigger] s[k]),
    ensures
        s.filter(pred) == s,
    decreases s.len(),
{
    reveal(Seq::filter);
    if s.len() > 0 {
        assert(forall|k: int| 0 <= k < s.drop_last().len() ==> pred(#[trigger] s.drop_last()[k]));
        lemma_filter_all(s.drop_last(), pred);
        assert(s.filter(pred) =~= s);
    }
}

/// No id is removable from an already-filtered node list.
proof fn lemma_no_removed_after_filter(defs: Seq<NodeV>, id: Seq<char>)
    ensures
        !id_removed(filtered_defs(defs), id),
{
    if id_removed(filtered_defs(defs), id) {
        let fd = filtered_defs(defs);
        let k = choose|k: int|
            0 <= k < fd.len() && !is_significant_spec(#[trigger] fd[k]) && fd[k].id == id;
        let n = fd[k];
        assert(fd.contains(n));
        lemma_filter_subset(defs, |m: NodeV| !id_removed(defs, m.id), n);
        broadcast use vstd::seq_lib::group_filter_ensures;

        assert(!id_removed(defs, n.id));
        let j = choose|j: int| 0 <= j < defs.len() && defs[j] == n;
        assert(!is_significant_spec(defs[j]) && defs[j].id == n.id);
        assert(id_removed(defs, n.id));
    }
}

/// Running the semantic filter twice yields the same graph as running it
/// once: the second pass finds nothing left to remove.
pub proof fn lemma_semantic_filter_idempotent(defs: Seq<NodeV>, refs: Seq<EdgeV>)
    ensures
        filtered_defs(filtered_defs(defs)) == filtered_defs(defs),
        filtered_refs(filtered_defs(defs), filtered_refs(defs, refs)) == filtered_refs(defs, refs),
{
    let fd = filtered_defs(defs);
    assert forall|k: int| 0 <= k < fd.len() implies !id_removed(fd, #[trigger] fd[k].id) by {
        lemma_no_removed_after_filter(defs, fd[k].id);
    }
    lemma_filter_all(fd, |n: NodeV| !id_removed(fd, n.id));
    let fr = filtered_refs(defs, refs);
    assert forall|k: int|
        0 <= k < fr.len() implies !id_removed(fd, #[trigger] fr[k].from) && !id_removed(
        fd,
        fr[k].to,
    ) by {
        lemma_no_removed_after_filter(defs, fr[k].from);
        lemma_no_removed_after_filter(defs, fr[k].to);
    }
    lemma_filter_all(fr, |e: EdgeV| !id_removed(fd, e.from) && !id_removed(fd, e.to));
}

} // verus!
