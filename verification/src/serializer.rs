//! The ad-hoc serializer: one pipe-delimited string per node, with three
//! granularity levels, plus the adjacency representation of the edges.

use std::collections::HashMap;
use vstd::prelude::*;

use crate::adjacency;
use crate::model::{
    AdHocGranularity, NodeV, SymbolNode, YcgGraph, YcgGraphAdHoc, kind_label,
};
use crate::sigfmt;
use crate::text;

verus! {

/// The inline signature of a node, or its name when none can be made.
pub open spec fn sig_or_name(n: NodeV) -> Seq<char> {
    match sigfmt::extracted_signature(n) {
        Some(s) => s,
        None => n.name,
    }
}

/// One compact logic step for a precondition string: a keyword from the
/// fixed vocabulary applied to the condition text after the colon.
pub open spec fn step_of(p: Seq<char>) -> Seq<char> {
    let i = sigfmt::first_match(p, ": "@);
    let cond = if 0 <= i && i + 2 <= p.len() && text::matches_at(p, i, ": "@) {
        p.subrange(i + 2, p.len() as int)
    } else {
        p
    };
    let kw: Seq<char> = if text::contains_sub(cond, "return"@) {
        "return"@
    } else if text::contains_sub(cond, "get"@) {
        "get"@
    } else if text::contains_sub(cond, "match"@) {
        "match"@
    } else if text::contains_char(cond, '(') {
        "action"@
    } else {
        "check"@
    };
    kw + "("@ + cond + ")"@
}

/// The logic steps of a precondition list, joined with semicolons.
pub open spec fn steps_of(pre: Seq<Seq<char>>) -> Seq<char>
    decreases pre.len(),
{
    if pre.len() == 0 {
        Seq::empty()
    } else if pre.len() == 1 {
        step_of(pre[0])
    } else {
        step_of(pre[0]) + ";"@ + steps_of(pre.drop_first())
    }
}

/// The level-1 line of a node: id, inline signature or name, kind.
pub open spec fn level1_line(n: NodeV) -> Seq<char> {
    n.id + "|"@ + sig_or_name(n) + "|"@ + kind_label(n.kind)
}

/// The pipe-delimited line serialized for a node at a granularity level.
pub open spec fn adhoc_line(g: AdHocGranularity, n: NodeV) -> Seq<char> {
    match g {
        AdHocGranularity::Default => n.id + "|"@ + n.name + "|"@ + kind_label(n.kind),
        AdHocGranularity::InlineSignatures => level1_line(n),
        AdHocGranularity::InlineLogic => match n.logic {
            Some(pre) => if pre.len() > 0 {
                level1_line(n) + "|logic:"@ + steps_of(pre)
            } else {
                level1_line(n)
            },
            None => level1_line(n),
        },
    }
}

fn step_of_exec(p: &Vec<char>) -> (r: Vec<char>)
    ensures
        r@ == step_of(p@),
{
    proof {
        reveal_strlit(": ");
    }
    let sep = text::chars_of(": ");
    let n = p.len();
    let cond: Vec<char> = match text::find_sub(p, &sep) {
        Some(i) => {
            proof {
                sigfmt::lemma_first_match_determined(p@, ": "@, i as int);
                assert(i + 2 <= n);
            }
            text::subvec(p, i + 2, n)
        },
        None => {
            proof {
                sigfmt::lemma_first_match_absent(p@, ": "@);
            }
            let full = text::subvec(p, 0, n);
            proof {
                assert(full@ =~= p@);
            }
            full
        },
    };
    let kw: &'static str = if text::contains_sub_exec(&cond, &text::chars_of("return")) {
        "return"
    } else if text::contains_sub_exec(&cond, &text::chars_of("get")) {
        "get"
    } else if text::contains_sub_exec(&cond, &text::chars_of("match")) {
        "match"
    } else if text::contains_char_exec(&cond, '(') {
        "action"
    } else {
        "check"
    };
    let mut out = text::chars_of(kw);
    out.push('(');
    let ghost mid = out@;
    text::append_vec(&mut out, &cond);
    out.push(')');
    proof {
        reveal_strlit("(");
        reveal_strlit(")");
        assert(mid =~= kw@ + "("@);
        assert(out@ =~= step_of(p@));
    }
    out
}

proof fn lemma_steps_push(pre: Seq<Seq<char>>, p: Seq<char>)
    ensures
        steps_of(pre.push(p)) == if pre.len() == 0 {
            step_of(p)
        } else {
            steps_of(pre) + ";"@ + step_of(p)
        },
    decreases pre.len(),
{
    if pre.len() == 0 {
        assert(pre.push(p)[0] == p);
    } else {
        assert(pre.push(p).drop_first() =~= pre.drop_first().push(p));
        lemma_steps_push(pre.drop_first(), p);
        assert(pre.push(p)[0] == pre[0]);
        if pre.len() == 1 {
        } else {
            assert(step_of(pre[0]) + ";"@ + (steps_of(pre.drop_first()) + ";"@ + step_of(p))
                =~= (step_of(pre[0]) + ";"@ + steps_of(pre.drop_first())) + ";"@ + step_of(p));
        }
    }
}

fn steps_of_exec(pre: &Vec<String>) -> (r: Vec<char>)
    ensures
        r@ == steps_of(pre.deep_view()),
{
    let ghost pv = pre.deep_view();
    let mut out: Vec<char> = Vec::new();
    let mut i: usize = 0;
    proof {
        assert(pv.subrange(0, 0) =~= Seq::<Seq<char>>::empty());
    }
    while i < pre.len()
        invariant
            pv == pre.deep_view(),
            pre@.len() == pv.len(),
            i <= pv.len(),
            out@ == steps_of(pv.subrange(0, i as int)),
        decreases pre.len() - i,
    {
        proof {
            assert(pv.subrange(0, i + 1) =~= pv.subrange(0, i as int).push(pv[i as int]));
            lemma_steps_push(pv.subrange(0, i as int), pv[i as int]);
            assert(pre@[i as int]@ == pv[i as int]);
        }
        let pc = text::chars_of(pre[i].as_str());
        let step = step_of_exec(&pc);
        if i > 0 {
            let ghost out0 = out@;
            out.push(';');
            proof {
                reveal_strlit(";");
                assert(out@ =~= out0 + ";"@);
            }
        }
        text::append_vec(&mut out, &step);
        i += 1;
    }
    proof {
        assert(pv.subrange(0, pv.len() as int) =~= pv);
    }
    out
}

/// Serializer of the ad-hoc format at a chosen granularity.
pub struct AdHocSerializerV2 {
    pub granularity: AdHocGranularity,
}

impl AdHocSerializerV2 {
    /// A serializer for the given granularity level.
    pub fn new(granularity: AdHocGranularity) -> (r: Self)
        ensures
            r.granularity == granularity,
    {
        AdHocSerializerV2 { granularity }
    }

    fn node_line(&self, node: &SymbolNode) -> (r: String)
        ensures
            r@ == adhoc_line(self.granularity, node@),
    {
        let mut out = text::chars_of(node.id.as_str());
        out.push('|');
        let ghost after_id = out@;
        proof {
            reveal_strlit("|");
            assert(after_id =~= node@.id + "|"@);
        }
        let use_name = match self.granularity {
            AdHocGranularity::Default => true,
            _ => false,
        };
        if use_name {
            text::append_vec(&mut out, &text::chars_of(node.name.as_str()));
        } else {
            match crate::sigfmt::SignatureExtractor::extract_signature(node) {
                Some(s) => {
                    text::append_vec(&mut out, &text::chars_of(s.as_str()));
                },
                None => {
                    text::append_vec(&mut out, &text::chars_of(node.name.as_str()));
                },
            }
        }
        out.push('|');
        let ghost after_mid = out@;
        text::append_vec(&mut out, &text::chars_of(node.kind.label()));
        proof {
            reveal_strlit("|");
            if use_name {
                assert(after_mid =~= node@.id + "|"@ + node@.name + "|"@);
            } else {
                assert(after_mid =~= node@.id + "|"@ + sig_or_name(node@) + "|"@);
            }
        }
        let add_logic = match self.granularity {
            AdHocGranularity::InlineLogic => true,
            _ => false,
        };
        if add_logic {
            match &node.logic {
                Some(l) => {
                    if l.preconditions.len() > 0 {
                        let ghost before_logic = out@;
                        text::append_vec(&mut out, &text::chars_of("|logic:"));
                        let steps = steps_of_exec(&l.preconditions);
                        text::append_vec(&mut out, &steps);
                        proof {
                            assert(node@.logic == Some(l.preconditions.deep_view()));
                            assert(out@ =~= before_logic + "|logic:"@ + steps@);
                        }
                    }
                },
                None => {},
            }
        }
        proof {
            assert(out@ =~= adhoc_line(self.granularity, node@));
        }
        text::string_from_chars(&out)
    }

    /// Serialize a graph into the ad-hoc representation: one pipe-delimited
    /// line per node at this serializer's granularity, and the adjacency
    /// form of the edges. The source map is accepted for interface
    /// compatibility; every serialized field comes from the graph itself.
    pub fn serialize_graph(&self, graph: &YcgGraph, _sources: &HashMap<String, String>) -> (r:
        YcgGraphAdHoc)
        ensures
            r.metadata == graph.metadata,
            r.definitions.deep_view() == graph.definitions.deep_view().map_values(
                |n: NodeV| adhoc_line(self.granularity, n),
            ),
            adjacency::adjacency_edges(r.adjacency.deep_view()).to_multiset()
                == graph.references.deep_view().to_multiset(),
            adjacency::entries_sorted(r.adjacency.deep_view()),
    {
        let ghost dv = graph.definitions.deep_view();
        let mut lines: Vec<String> = Vec::new();
        let mut i: usize = 0;
        proof {
            assert(lines.deep_view() =~= dv.subrange(0, 0).map_values(
                |n: NodeV| adhoc_line(self.granularity, n),
            ));
        }
        while i < graph.definitions.len()
            invariant
                dv == graph.definitions.deep_view(),
                graph.definitions@.len() == dv.len(),
                i <= dv.len(),
                lines.deep_view() == dv.subrange(0, i as int).map_values(
                    |n: NodeV| adhoc_line(self.granularity, n),
                ),
            decreases graph.definitions.len() - i,
        {
            proof {
                assert(graph.definitions@[i as int]@ == dv[i as int]);
            }
            let line = self.node_line(&graph.definitions[i]);
            let ghost before = lines.deep_view();
            lines.push(line);
            proof {
                let f = |n: NodeV| adhoc_line(self.granularity, n);
                assert(lines.deep_view() =~= before.push(line@));
                assert(dv.subrange(0, i + 1).map_values(f) =~= dv.subrange(0, i as int).map_values(
                    f,
                ).push(f(dv[i as int])));
            }
            i += 1;
        }
        proof {
            assert(dv.subrange(0, dv.len() as int) =~= dv);
        }
        let adjacency = adjacency::build_adjacency(&graph.references);
        YcgGraphAdHoc { metadata: graph.metadata.clone(), definitions: lines, adjacency }
    }
}

/// Occurrences of a character in a text.
pub open spec fn count_char_occ(s: Seq<char>, c: char) -> int
    decreases s.len(),
{
    if s.len() == 0 {
        0int
    } else {
        count_char_occ(s.drop_last(), c) + if s.last() == c {
            1int
        } else {
            0int
        }
    }
}

pub proof fn lemma_count_concat(a: Seq<char>, b: Seq<char>, c: char)
    ensures
        count_char_occ(a + b, c) == count_char_occ(a, c) + count_char_occ(b, c),
    decreases b.len(),
{
    if b.len() == 0 {
        assert(a + b =~= a);
    } else {
        assert((a + b).drop_last() =~= a + b.drop_last());
        assert((a + b).last() == b.last());
        lemma_count_concat(a, b.drop_last(), c);
    }
}

pub proof fn lemma_count_zero(s: Seq<char>, c: char)
    ensures
        (count_char_occ(s, c) == 0) <==> !text::contains_char(s, c),
    decreases s.len(),
{
    if s.len() == 0 {
    } else {
        lemma_count_zero(s.drop_last(), c);
        assert(count_char_occ(s.drop_last(), c) >= 0) by {
            lemma_count_nonneg(s.drop_last(), c);
        }
        if s.last() == c {
            assert(text::contains_char(s, c));
        } else {
            if text::contains_char(s, c) {
                let k = choose|k: int| 0 <= k < s.len() && s[k] == c;
                assert(s.drop_last()[k] == c);
                assert(text::contains_char(s.drop_last(), c));
            }
            if text::contains_char(s.drop_last(), c) {
                let k = choose|k: int| 0 <= k < s.len() - 1 && s.drop_last()[k] == c;
                assert(s[k] == c);
            }
        }
    }
}

pub proof fn lemma_count_nonneg(s: Seq<char>, c: char)
    ensures
        count_char_occ(s, c) >= 0,
    decreases s.len(),
{
    if s.len() > 0 {
        lemma_count_nonneg(s.drop_last(), c);
    }
}

proof fn lemma_subrange_no_char(s: Seq<char>, c: char, i: int, j: int)
    requires
        !text::contains_char(s, c),
        0 <= i <= j <= s.len(),
    ensures
        !text::contains_char(s.subrange(i, j), c),
{
    if text::contains_char(s.subrange(i, j), c) {
        let k = choose|k: int| 0 <= k < j - i && s.subrange(i, j)[k] == c;
        assert(s[i + k] == c);
    }
}

proof fn lemma_kind_label_no_pipe(k: crate::model::ScipSymbolKind)
    ensures
        !text::contains_char(kind_label(k), '|'),
{
    reveal_strlit("file");
    reveal_strlit("module");
    reveal_strlit("class");
    reveal_strlit("method");
    reveal_strlit("function");
    reveal_strlit("variable");
    reveal_strlit("interface");
    assert forall|i: int| 0 <= i < kind_label(k).len() implies kind_label(k)[i] != '|' by {}
}

proof fn lemma_step_no_pipe(p: Seq<char>)
    requires
        !text::contains_char(p, '|'),
    ensures
        !text::contains_char(step_of(p), '|'),
{
    reveal_strlit("return");
    reveal_strlit("get");
    reveal_strlit("match");
    reveal_strlit("action");
    reveal_strlit("check");
    reveal_strlit("(");
    reveal_strlit(")");
    let i = sigfmt::first_match(p, ": "@);
    let cond = if 0 <= i && i + 2 <= p.len() && text::matches_at(p, i, ": "@) {
        p.subrange(i + 2, p.len() as int)
    } else {
        p
    };
    if 0 <= i && i + 2 <= p.len() && text::matches_at(p, i, ": "@) {
        lemma_subrange_no_char(p, '|', i + 2, p.len() as int);
    }
    assert(!text::contains_char(cond, '|'));
    assert forall|t: int| 0 <= t < step_of(p).len() implies step_of(p)[t] != '|' by {}
}

proof fn lemma_steps_no_pipe(pre: Seq<Seq<char>>)
    requires
        forall|k: int| 0 <= k < pre.len() ==> !text::contains_char(#[trigger] pre[k], '|'),
    ensures
        !text::contains_char(steps_of(pre), '|'),
    decreases pre.len(),
{
    reveal_strlit(";");
    if pre.len() == 0 {
    } else if pre.len() == 1 {
        lemma_step_no_pipe(pre[0]);
    } else {
        lemma_step_no_pipe(pre[0]);
        assert forall|k: int|
            0 <= k < pre.drop_first().len() implies !text::contains_char(
            #[trigger] pre.drop_first()[k],
            '|',
        ) by {
            assert(pre.drop_first()[k] == pre[k + 1]);
        }
        lemma_steps_no_pipe(pre.drop_first());
        assert forall|t: int| 0 <= t < steps_of(pre).len() implies steps_of(pre)[t] != '|' by {}
    }
}

/// An ad-hoc line at the default or inline-signature level always holds
/// exactly three pipe-delimited fields; at the inline-logic level three or
/// four, and a fourth field starts with `logic:`. This holds of every node
/// whose own texts are free of the pipe character.
pub proof fn lemma_adhoc_line_fields(g: AdHocGranularity, n: NodeV)
    requires
        !text::contains_char(n.id, '|'),
        !text::contains_char(n.name, '|'),
        !text::contains_char(sig_or_name(n), '|'),
        match n.logic {
            Some(pre) => forall|k: int|
                0 <= k < pre.len() ==> !text::contains_char(#[trigger] pre[k], '|'),
            None => true,
        },
    ensures
        g == AdHocGranularity::Default || g == AdHocGranularity::InlineSignatures
            ==> count_char_occ(adhoc_line(g, n), '|') == 2,
        g == AdHocGranularity::InlineLogic ==> count_char_occ(adhoc_line(g, n), '|') == 2
            || count_char_occ(adhoc_line(g, n), '|') == 3,
        (g == AdHocGranularity::InlineLogic && count_char_occ(adhoc_line(g, n), '|') == 3)
            ==> text::starts_with(
            adhoc_line(g, n).subrange(
                level1_line(n).len() as int + 1,
                adhoc_line(g, n).len() as int,
            ),
            "logic:"@,
        ),
{
    reveal_strlit("|");
    reveal_strlit("|logic:");
    reveal_strlit("logic:");
    lemma_kind_label_no_pipe(n.kind);
    lemma_count_zero(n.id, '|');
    lemma_count_zero(n.name, '|');
    lemma_count_zero(sig_or_name(n), '|');
    lemma_count_zero(kind_label(n.kind), '|');
    assert(count_char_occ("|"@, '|') == 1) by {
        reveal_strlit("|");
        assert(count_char_occ(Seq::<char>::empty(), '|') == 0);
        assert("|"@.len() == 1);
        assert("|"@.last() == '|');
        assert("|"@.drop_last() =~= Seq::<char>::empty());
    }
    let l0 = n.id + "|"@ + n.name + "|"@ + kind_label(n.kind);
    lemma_count_concat(n.id, "|"@, '|');
    lemma_count_concat(n.id + "|"@, n.name, '|');
    lemma_count_concat(n.id + "|"@ + n.name, "|"@, '|');
    lemma_count_concat(n.id + "|"@ + n.name + "|"@, kind_label(n.kind), '|');
    assert(count_char_occ(l0, '|') == 2);
    let l1 = level1_line(n);
    lemma_count_concat(n.id, "|"@, '|');
    lemma_count_concat(n.id + "|"@, sig_or_name(n), '|');
    lemma_count_concat(n.id + "|"@ + sig_or_name(n), "|"@, '|');
    lemma_count_concat(n.id + "|"@ + sig_or_name(n) + "|"@, kind_label(n.kind), '|');
    assert(count_char_occ(l1, '|') == 2);
    if g == AdHocGranularity::InlineLogic {
        match n.logic {
            Some(pre) => {
                if pre.len() > 0 {
                    lemma_steps_no_pipe(pre);
                    lemma_count_zero(steps_of(pre), '|');
                    assert(count_char_occ("|logic:"@, '|') == 1) by {
                        reveal_strlit("|logic:");
                        let t = "|logic:"@;
                        assert(t.len() == 7);
                        lemma_count_zero(t.subrange(1, 7), '|');
                        assert(t =~= t.subrange(0, 1) + t.subrange(1, 7));
                        lemma_count_concat(t.subrange(0, 1), t.subrange(1, 7), '|');
                        assert(count_char_occ(Seq::<char>::empty(), '|') == 0);
                        assert(t.subrange(0, 1).drop_last() =~= Seq::<char>::empty());
                        assert(t.subrange(0, 1).last() == '|');
                        assert(count_char_occ(t.subrange(0, 1), '|') == 1);
                        assert forall|k: int|
                            0 <= k < t.subrange(1, 7).len() implies t.subrange(1, 7)[k]
                            != '|' by {}
                    }
                    lemma_count_concat(l1, "|logic:"@, '|');
                    lemma_count_concat(l1 + "|logic:"@, steps_of(pre), '|');
                    assert(count_char_occ(adhoc_line(g, n), '|') == 3);
                    let line = adhoc_line(g, n);
                    let tail = line.subrange(l1.len() as int + 1, line.len() as int);
                    assert(tail =~= "logic:"@ + steps_of(pre)) by {
                        assert(line =~= l1 + "|logic:"@ + steps_of(pre));
                        assert forall|t: int| 0 <= t < tail.len() implies tail[t] == (
                        "logic:"@ + steps_of(pre))[t] by {
                            assert(tail[t] == line[l1.len() + 1 + t]);
                        }
                        assert(tail.len() == "logic:"@.len() + steps_of(pre).len());
                    }
                    assert(tail.subrange(0, 6) =~= "logic:"@) by {
                        reveal_strlit("logic:");
                        reveal_strlit("|logic:");
                        assert forall|t: int| 0 <= t < 6 implies tail[t] == "logic:"@[t] by {
                            assert(tail[t] == ("logic:"@ + steps_of(pre))[t]);
                        }
                    }
                } else {
                }
            },
            None => {},
        }
    }
}

} // verus!
