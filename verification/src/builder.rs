//! The graph builder: the two-pass conversion from a decoded symbol index
//! into the node/edge graph, with anchor pre-registration, kind inference,
//! level-of-detail pruning, parent resolution, enrichment, and scope-based
//! reference attribution.

use std::collections::HashMap;
use vstd::prelude::*;

use crate::anchor::{self, AnchorRegistry};
use crate::enricher::{self, SyntaxNode};
use crate::model::{
    EdgeType, EdgeV, LevelOfDetail, LogicMetadata, NodeV, ProjectMetadata, ReferenceEdge,
    ScipSymbolKind, SymbolNode, YcgConfig, YcgGraph,
};
use crate::text;
use crate::uri;

verus! {

broadcast use vstd::std_specs::hash::group_hash_axioms;

/// One occurrence of a symbol at a source position.
#[derive(Debug)]
pub struct ScipOccurrence {
    pub symbol: String,
    pub symbol_roles: i32,
    pub range: Vec<i32>,
}

/// A symbol's recorded kind code.
#[derive(Debug)]
pub struct ScipSymbolInfo {
    pub symbol: String,
    pub kind: i32,
}

/// One indexed document.
#[derive(Debug)]
pub struct ScipDocument {
    pub relative_path: String,
    pub occurrences: Vec<ScipOccurrence>,
    pub symbols: Vec<ScipSymbolInfo>,
}

/// The decoded symbol index.
#[derive(Debug)]
pub struct ScipIndex {
    pub documents: Vec<ScipDocument>,
    pub external_symbols: Vec<ScipSymbolInfo>,
}

/// The bit flagging an occurrence as a definition.
pub const DEFINITION_ROLE: i32 = 1;

/// An ephemeral attribution scope: a raw identifier and its line range.
pub struct Scope {
    pub id: u64,
    pub start_line: i32,
    pub end_line: i32,
}

/// The attributing scope for a line, scanned in order: among the scopes
/// whose range contains the line, the first one of minimal size wins.
pub open spec fn best_scope_from(
    scopes: Seq<Scope>,
    i: int,
    line: int,
    best: Option<(u64, int)>,
) -> Option<u64>
    decreases scopes.len() - i when 0 <= i <= scopes.len()
{
    if i >= scopes.len() {
        match best {
            Some(b) => Some(b.0),
            None => None,
        }
    } else {
        let sc = scopes[i];
        if sc.start_line <= line && line <= sc.end_line && (match best {
            Some(b) => sc.end_line - sc.start_line < b.1,
            None => true,
        }) {
            best_scope_from(scopes, i + 1, line, Some((sc.id, sc.end_line - sc.start_line)))
        } else {
            best_scope_from(scopes, i + 1, line, best)
        }
    }
}

/// The scope a reference line is attributed to.
pub open spec fn enclosing_scope(scopes: Seq<Scope>, line: int) -> Option<u64> {
    best_scope_from(scopes, 0, line, None)
}

/// Find the innermost scope containing a line.
pub fn find_enclosing_scope(scopes: &Vec<Scope>, line: i32) -> (r: Option<u64>)
    ensures
        r == enclosing_scope(scopes@, line as int),
{
    let mut best: Option<(u64, i64)> = None;
    let mut i: usize = 0;
    while i < scopes.len()
        invariant
            i <= scopes@.len(),
            enclosing_scope(scopes@, line as int) == best_scope_from(
                scopes@,
                i as int,
                line as int,
                match best {
                    Some(b) => Some((b.0, b.1 as int)),
                    None => None,
                },
            ),
            match best {
                Some(b) => 0 <= b.1 <= i32::MAX as i64 - i32::MIN as i64,
                None => true,
            },
        decreases scopes.len() - i,
    {
        let sc = &scopes[i];
        proof {
            assert(scopes@[i as int] == scopes[i as int]);
        }
        let fits = sc.start_line <= line && line <= sc.end_line;
        let size: i64 = (sc.end_line as i64) - (sc.start_line as i64);
        let better = fits && (match &best {
            Some(b) => size < b.1,
            None => true,
        });
        if better {
            best = Some((sc.id, size));
        }
        i += 1;
    }
    match best {
        Some(b) => Some(b.0),
        None => None,
    }
}

/// A candidate variable signature looks like a method signature: a
/// `function` keyword, an arrow, a leading `async`, a decorator-call
/// pattern, a return-type colon after the last closing parenthesis, or
/// empty call parentheses.
pub open spec fn invalid_var_sig(s: Seq<char>) -> bool {
    ||| text::contains_sub(s, "function"@)
    ||| text::contains_sub(s, "=>"@)
    ||| text::starts_with(text::trimmed(s), "async "@)
    ||| (text::contains_char(s, '@') && text::contains_char(s, '('))
    ||| rparen_colon(s)
    ||| text::contains_sub(s, "()"@)
}

/// Index of the last closing parenthesis, or `-1`.
pub open spec fn last_rparen(s: Seq<char>) -> int
    decreases s.len(),
{
    if s.len() == 0 {
        -1
    } else if s.last() == ')' {
        s.len() - 1
    } else {
        last_rparen(s.drop_last())
    }
}

/// After the last `)`, the trimmed rest starts with a colon.
pub open spec fn rparen_colon(s: Seq<char>) -> bool {
    let j = last_rparen(s);
    &&& j >= 0
    &&& {
        let after = text::trimmed(s.subrange(j + 1, s.len() as int));
        after.len() > 0 && after[0] == ':'
    }
}

fn rparen_colon_exec(v: &Vec<char>) -> (r: bool)
    ensures
        r == rparen_colon(v@),
{
    let n = v.len();
    let mut i: usize = n;
    proof {
        assert(v@.subrange(0, n as int) =~= v@);
    }
    while i > 0 && v[i - 1] != ')'
        invariant
            n == v@.len(),
            i <= n,
            last_rparen(v@) == last_rparen(v@.subrange(0, i as int)),
        decreases i,
    {
        proof {
            let s = v@.subrange(0, i as int);
            assert(s.last() == v@[i - 1]);
            assert(s.drop_last() =~= v@.subrange(0, i - 1));
        }
        i -= 1;
    }
    if i == 0 {
        proof {
            assert(v@.subrange(0, 0) =~= Seq::<char>::empty());
        }
        return false;
    }
    proof {
        let s = v@.subrange(0, i as int);
        assert(s.last() == v@[i - 1]);
        assert(last_rparen(v@) == i - 1);
    }
    let tail = text::subvec(v, i, n);
    let trimmed_tail = text::trim(&tail);
    trimmed_tail.len() > 0 && trimmed_tail[0] == ':'
}

fn invalid_var_sig_exec(v: &Vec<char>) -> (r: bool)
    ensures
        r == invalid_var_sig(v@),
{
    if text::contains_sub_exec(v, &text::chars_of("function")) {
        return true;
    }
    if text::contains_sub_exec(v, &text::chars_of("=>")) {
        return true;
    }
    let t = text::trim(v);
    if text::starts_with_exec(&t, &text::chars_of("async ")) {
        return true;
    }
    if text::contains_char_exec(v, '@') && text::contains_char_exec(v, '(') {
        return true;
    }
    if rparen_colon_exec(v) {
        return true;
    }
    text::contains_sub_exec(v, &text::chars_of("()"))
}

/// A variable signature after validation: dropped when it looks like a
/// method signature, kept otherwise.
pub open spec fn validated_sig(sig: Option<Seq<char>>) -> Option<Seq<char>> {
    match sig {
        Some(s) => if invalid_var_sig(s) {
            None
        } else {
            Some(s)
        },
        None => None,
    }
}

/// Validate that a variable's extracted signature is not an inherited
/// method signature; the symbol URI identifies the variable to diagnostics.
pub fn validate_variable_signature(sig: Option<String>, _symbol_uri: &str) -> (r: Option<String>)
    ensures
        r.deep_view() == validated_sig(sig.deep_view()),
{
    match sig {
        Some(s) => {
            let v = text::chars_of(s.as_str());
            if invalid_var_sig_exec(&v) {
                None
            } else {
                Some(s)
            }
        },
        None => None,
    }
}

/// Whether the level of detail drops a definition before enrichment.
pub open spec fn lod_skips(lod: LevelOfDetail, kind: ScipSymbolKind, u: Seq<char>) -> bool {
    match lod {
        LevelOfDetail::Low => kind == ScipSymbolKind::Variable || kind == ScipSymbolKind::Interface
            || kind == ScipSymbolKind::Module,
        LevelOfDetail::Medium => (kind == ScipSymbolKind::Variable && !text::contains_char(u, '#')
            && !text::contains_char(u, '.')) || text::contains_sub(u, "().("@),
        LevelOfDetail::High => false,
    }
}

fn lod_skips_exec(lod: LevelOfDetail, kind: ScipSymbolKind, u: &Vec<char>) -> (r: bool)
    ensures
        r == lod_skips(lod, kind, u@),
{
    match lod {
        LevelOfDetail::Low => kind == ScipSymbolKind::Variable || kind == ScipSymbolKind::Interface
            || kind == ScipSymbolKind::Module,
        LevelOfDetail::Medium => {
            let is_local_var = kind == ScipSymbolKind::Variable && !text::contains_char_exec(
                u,
                '#',
            ) && !text::contains_char_exec(u, '.');
            let is_param = text::contains_sub_exec(u, &text::chars_of("().("));
            is_local_var || is_param
        },
        LevelOfDetail::High => false,
    }
}

/// A well-formed graph node: logic stands only on methods and functions and
/// is never empty; file and module nodes carry no enrichment; a variable's
/// signature has passed validation.
pub open spec fn node_wf(n: NodeV) -> bool {
    &&& match n.logic {
        Some(pre) => (n.kind == ScipSymbolKind::Method || n.kind == ScipSymbolKind::Function)
            && pre.len() > 0,
        None => true,
    }
    &&& ((n.kind == ScipSymbolKind::File || n.kind == ScipSymbolKind::Module) ==> (n.signature
        is None && n.documentation is None && n.logic is None))
    &&& ((n.kind == ScipSymbolKind::Variable && n.signature is Some) ==> !invalid_var_sig(
        n.signature.unwrap(),
    ))
}

/// A well-formed edge: typed as a call and never a self-loop.
pub open spec fn edge_wf(e: EdgeV) -> bool {
    e.from != e.to && e.edge_type == EdgeType::Calls
}

/// The anchor-name hint cleaned for slugging: alphanumerics kept, everything
/// else replaced by underscores.
pub open spec fn slugged(s: Seq<char>) -> Seq<char> {
    s.map_values(
        |c: char|
            if text::is_alnum(c) {
                c
            } else {
                '_'
            },
    )
}

fn slug_exec(v: &Vec<char>) -> (r: Vec<char>)
    ensures
        r@ == slugged(v@),
{
    let mut r: Vec<char> = Vec::new();
    let mut i: usize = 0;
    while i < v.len()
        invariant
            i <= v@.len(),
            r@.len() == i,
            forall|j: int|
                0 <= j < i ==> r@[j] == (if text::is_alnum(v@[j]) {
                    v@[j]
                } else {
                    '_'
                }),
        decreases v.len() - i,
    {
        let c = v[i];
        if text::alnum_exec(c) {
            r.push(c);
        } else {
            r.push('_');
        }
        i += 1;
    }
    proof {
        assert(r@ =~= slugged(v@));
    }
    r
}

fn contains_edge(edges: &Vec<ReferenceEdge>, e: &ReferenceEdge) -> (r: bool)
    ensures
        r == edges.deep_view().contains(e@),
{
    let mut i: usize = 0;
    while i < edges.len()
        invariant
            i <= edges@.len(),
            forall|k: int| 0 <= k < i ==> edges.deep_view()[k] != e@,
        decreases edges.len() - i,
    {
        proof {
            assert(edges@[i as int]@ == edges.deep_view()[i as int]);
        }
        let same = edges[i].from.eq(&e.from) && edges[i].to.eq(&e.to) && edges[i].edge_type.rank()
            == e.edge_type.rank();
        if same {
            proof {
                if crate::model::edge_type_rank(edges.deep_view()[i as int].edge_type)
                    == crate::model::edge_type_rank(e@.edge_type) {
                    assert(edges.deep_view()[i as int].edge_type == e@.edge_type);
                }
                assert(edges.deep_view()[i as int] =~= e@);
            }
            return true;
        }
        proof {
            if edges.deep_view()[i as int] == e@ {
                assert(edges@[i as int].from@ == e.from@);
            }
        }
        i += 1;
    }
    false
}

/// Build the kind table: the recorded kind code for each symbol URI's raw
/// identifier, external symbols first, later records overwriting earlier.
fn build_kind_map(index: &ScipIndex) -> (m: HashMap<u64, i32>)
    ensures
        m@ == kind_map_of(*index),
{
    let ghost extv = index.external_symbols@;
    let ghost docsv = index.documents@;
    let mut m: HashMap<u64, i32> = HashMap::new();
    let mut i: usize = 0;
    proof {
        assert(m@ =~= Map::<u64, i32>::empty());
    }
    while i < index.external_symbols.len()
        invariant
            extv == index.external_symbols@,
            docsv == index.documents@,
            i <= extv.len(),
            kind_map_of(*index) == km_docs(km_infos(m@, extv, i as int), docsv, 0),
        decreases index.external_symbols.len() - i,
    {
        let info = &index.external_symbols[i];
        proof {
            assert(*info == extv[i as int]);
        }
        let h = anchor::hash_uri(info.symbol.as_str());
        let ghost m0 = m@;
        m.insert(h, info.kind);
        proof {
            assert(m@ == m0.insert(anchor::uri_hash(extv[i as int].symbol@), extv[i as int].kind));
            assert(km_infos(m0, extv, i as int) == km_infos(m@, extv, i + 1));
        }
        i += 1;
    }
    proof {
        assert(km_infos(m@, extv, extv.len() as int) == m@);
    }
    let mut d: usize = 0;
    while d < index.documents.len()
        invariant
            docsv == index.documents@,
            d <= docsv.len(),
            kind_map_of(*index) == km_docs(m@, docsv, d as int),
        decreases index.documents.len() - d,
    {
        let doc = &index.documents[d];
        proof {
            assert(*doc == docsv[d as int]);
        }
        let ghost symsv = docsv[d as int].symbols@;
        let mut s: usize = 0;
        proof {
            assert(km_infos(m@, symsv, 0) == km_infos(m@, symsv, 0));
        }
        let ghost km_total = kind_map_of(*index);
        while s < doc.symbols.len()
            invariant
                docsv == index.documents@,
                d < docsv.len(),
                doc == &index.documents@[d as int],
                symsv == docsv[d as int].symbols@,
                s <= symsv.len(),
                km_total == kind_map_of(*index),
                km_total == km_docs(km_infos(m@, symsv, s as int), docsv, d + 1),
            decreases doc.symbols.len() - s,
        {
            let info = &doc.symbols[s];
            proof {
                assert(*info == symsv[s as int]);
            }
            let h = anchor::hash_uri(info.symbol.as_str());
            let ghost m0 = m@;
            m.insert(h, info.kind);
            proof {
                assert(m@ == m0.insert(
                    anchor::uri_hash(symsv[s as int].symbol@),
                    symsv[s as int].kind,
                ));
                assert(km_infos(m0, symsv, s as int) == km_infos(m@, symsv, s + 1));
            }
            s += 1;
        }
        proof {
            assert(km_infos(m@, symsv, symsv.len() as int) == m@);
        }
        d += 1;
    }
    proof {
        assert(km_docs(m@, docsv, docsv.len() as int) == m@);
    }
    m
}



/// Whether an occurrence records a definition.
pub open spec fn is_def_occ(occ: ScipOccurrence) -> bool {
    occ.symbol_roles & DEFINITION_ROLE != 0
}

/// The start line an occurrence reports, zero when absent.
pub open spec fn occ_start_line(occ: ScipOccurrence) -> i32 {
    if occ.range@.len() > 0 {
        occ.range@[0]
    } else {
        0i32
    }
}

/// The start column an occurrence reports, zero when absent.
pub open spec fn occ_start_col(occ: ScipOccurrence) -> i32 {
    if occ.range@.len() > 1 {
        occ.range@[1]
    } else {
        0i32
    }
}

/// The end line an occurrence reports, defaulting to its start line.
pub open spec fn occ_end_line(occ: ScipOccurrence) -> i32 {
    if occ.range@.len() > 2 {
        occ.range@[2]
    } else {
        occ_start_line(occ)
    }
}

/// The anchor-name hint pre-registration derives from a symbol URI: the
/// slugged clean name, or `def` when that name is empty or a bare file
/// extension.
pub open spec fn base_hint_of(u: Seq<char>) -> Seq<char> {
    let clean = uri::clean_name_of(u);
    if clean.len() == 0 || text::ends_with(clean, ".ts"@) || text::ends_with(clean, ".rs"@) {
        "def"@
    } else {
        slugged(clean)
    }
}

/// The registry after pre-registering the definitions of `occs` from `i` on.
pub open spec fn pass_a_occs(
    m: Map<u64, Seq<char>>,
    occs: Seq<ScipOccurrence>,
    i: int,
) -> Map<u64, Seq<char>>
    decreases occs.len() - i when 0 <= i <= occs.len()
{
    if i >= occs.len() {
        m
    } else {
        let occ = occs[i];
        let m2 = if is_def_occ(occ) {
            let id = anchor::uri_hash(occ.symbol@);
            anchor::registered(m, id, anchor::anchor_of(base_hint_of(occ.symbol@), id))
        } else {
            m
        };
        pass_a_occs(m2, occs, i + 1)
    }
}

/// The registry after pre-registering the documents from `d` on: each
/// document's file anchor, then its definitions.
pub open spec fn pass_a_docs(
    m: Map<u64, Seq<char>>,
    docs: Seq<ScipDocument>,
    d: int,
) -> Map<u64, Seq<char>>
    decreases docs.len() - d when 0 <= d <= docs.len()
{
    if d >= docs.len() {
        m
    } else {
        let fid = anchor::uri_hash(docs[d].relative_path@);
        let m1 = anchor::registered(m, fid, anchor::anchor_of("file"@, fid));
        pass_a_docs(pass_a_occs(m1, docs[d].occurrences@, 0), docs, d + 1)
    }
}

/// The anchor registry the pre-registration pass builds for an index.
pub open spec fn registry_of(docs: Seq<ScipDocument>) -> Map<u64, Seq<char>> {
    pass_a_docs(Map::empty(), docs, 0)
}

/// The kind table after recording `infos` from `i` on; later records win.
pub open spec fn km_infos(m: Map<u64, i32>, infos: Seq<ScipSymbolInfo>, i: int) -> Map<u64, i32>
    decreases infos.len() - i when 0 <= i <= infos.len()
{
    if i >= infos.len() {
        m
    } else {
        km_infos(
            m.insert(anchor::uri_hash(infos[i].symbol@), infos[i].kind),
            infos,
            i + 1,
        )
    }
}

/// The kind table after recording every document's symbols from `d` on.
pub open spec fn km_docs(m: Map<u64, i32>, docs: Seq<ScipDocument>, d: int) -> Map<u64, i32>
    decreases docs.len() - d when 0 <= d <= docs.len()
{
    if d >= docs.len() {
        m
    } else {
        km_docs(km_infos(m, docs[d].symbols@, 0), docs, d + 1)
    }
}

/// The kind table of an index: external symbols first, then each document's
/// symbols.
pub open spec fn kind_map_of(index: ScipIndex) -> Map<u64, i32> {
    km_docs(km_infos(Map::empty(), index.external_symbols@, 0), index.documents@, 0)
}

/// The node kind of a definition: the recorded code when one is present and
/// non-zero, the URI-shape inference otherwise.
pub open spec fn occ_kind(km: Map<u64, i32>, occ: ScipOccurrence) -> ScipSymbolKind {
    let h = anchor::uri_hash(occ.symbol@);
    let raw = if km.contains_key(h) {
        km[h]
    } else {
        0i32
    };
    if raw == 0 {
        uri::inferred_kind_of(occ.symbol@)
    } else {
        uri::mapped_kind(raw)
    }
}

/// The display name of a definition: the cleaned URI name, or, for a
/// variable with an index-generated name and an in-range position, the name
/// resolved from the parsed source when resolution succeeds.
pub open spec fn occ_name(
    km: Map<u64, i32>,
    tree: Option<SyntaxNode>,
    occ: ScipOccurrence,
) -> Seq<char> {
    let clean = uri::clean_name_of(occ.symbol@);
    if occ_kind(km, occ) == ScipSymbolKind::Variable && uri::is_generic_name_spec(clean)
        && occ_start_line(occ) >= 0 && occ_start_col(occ) >= 0 {
        match tree {
            Some(root) => match enricher::resolved_name_of(
                root,
                occ_start_line(occ) as int,
                occ_start_col(occ) as int,
            ) {
                Some(r) => r,
                None => clean,
            },
            None => clean,
        }
    } else {
        clean
    }
}

/// The parent anchor of a definition: the registered anchor of the textual
/// parent prefix, falling back to the document's file anchor; a file-kind
/// node without a separator has no parent.
pub open spec fn occ_parent(
    reg: Map<u64, Seq<char>>,
    fid: u64,
    km: Map<u64, i32>,
    occ: ScipOccurrence,
) -> Option<Seq<char>> {
    match uri::parent_id_of(occ.symbol@) {
        Some(pid) => if reg.contains_key(pid) {
            Some(reg[pid])
        } else if reg.contains_key(fid) {
            Some(reg[fid])
        } else {
            None
        },
        None => if occ_kind(km, occ) == ScipSymbolKind::File {
            None
        } else if reg.contains_key(fid) {
            Some(reg[fid])
        } else {
            None
        },
    }
}

/// The enrichment triple (signature, documentation, preconditions) of a
/// definition: file and module kinds and out-of-range lines are never
/// enriched, and a missing tree or failed search degrades to nothing.
pub open spec fn occ_enrichment(
    km: Map<u64, i32>,
    tree: Option<SyntaxNode>,
    occ: ScipOccurrence,
) -> (Option<Seq<char>>, Option<Seq<char>>, Seq<Seq<char>>) {
    let kind = occ_kind(km, occ);
    if kind != ScipSymbolKind::File && kind != ScipSymbolKind::Module && occ_start_line(occ)
        >= 0 {
        match tree {
            Some(root) => match enricher::enrichment_of(root, occ_start_line(occ) as int) {
                Some(t) => t,
                None => (None, None, Seq::empty()),
            },
            None => (None, None, Seq::empty()),
        }
    } else {
        (None, None, Seq::empty())
    }
}

/// The node materialized for a retained definition.
pub open spec fn occ_node(
    reg: Map<u64, Seq<char>>,
    km: Map<u64, i32>,
    fid: u64,
    tree: Option<SyntaxNode>,
    occ: ScipOccurrence,
) -> NodeV {
    let kind = occ_kind(km, occ);
    let h = anchor::uri_hash(occ.symbol@);
    let e = occ_enrichment(km, tree, occ);
    NodeV {
        id: if reg.contains_key(h) {
            reg[h]
        } else {
            anchor::anchor_of("gen"@, h)
        },
        name: occ_name(km, tree, occ),
        kind: kind,
        parent_id: occ_parent(reg, fid, km, occ),
        documentation: e.1,
        signature: if kind == ScipSymbolKind::Variable {
            validated_sig(e.0)
        } else {
            e.0
        },
        logic: if (kind == ScipSymbolKind::Method || kind == ScipSymbolKind::Function)
            && e.2.len() > 0 {
            Some(e.2)
        } else {
            None
        },
    }
}

/// The nodes a document contributes from occurrence `o` on: each retained
/// definition's node, in occurrence order.
pub open spec fn doc_nodes(
    reg: Map<u64, Seq<char>>,
    km: Map<u64, i32>,
    doc: ScipDocument,
    tree: Option<SyntaxNode>,
    lod: LevelOfDetail,
    o: int,
) -> Seq<NodeV>
    decreases doc.occurrences@.len() - o when 0 <= o <= doc.occurrences@.len()
{
    if o >= doc.occurrences@.len() {
        Seq::empty()
    } else {
        let occ = doc.occurrences@[o];
        let rest = doc_nodes(reg, km, doc, tree, lod, o + 1);
        if is_def_occ(occ) && !lod_skips(lod, occ_kind(km, occ), occ.symbol@) {
            seq![
                occ_node(reg, km, anchor::uri_hash(doc.relative_path@), tree, occ),
            ] + rest
        } else {
            rest
        }
    }
}

/// All nodes of the graph: documents in index order, each contributing its
/// retained definitions in occurrence order.
pub open spec fn all_nodes(
    reg: Map<u64, Seq<char>>,
    km: Map<u64, i32>,
    docs: Seq<ScipDocument>,
    trees: Seq<Option<SyntaxNode>>,
    lod: LevelOfDetail,
    d: int,
) -> Seq<NodeV>
    decreases docs.len() - d when 0 <= d <= docs.len() && trees.len() == docs.len()
{
    if d >= docs.len() {
        Seq::empty()
    } else {
        doc_nodes(reg, km, docs[d], trees[d], lod, 0) + all_nodes(reg, km, docs, trees, lod, d + 1)
    }
}

/// The scope stack after the first `o` occurrences of a document: the file
/// scope, then one scope per retained function, method or class definition.
pub open spec fn scopes_upto(
    km: Map<u64, i32>,
    doc: ScipDocument,
    lod: LevelOfDetail,
    o: int,
) -> Seq<Scope>
    decreases o when 0 <= o <= doc.occurrences@.len()
{
    if o <= 0 {
        seq![
            Scope {
                id: anchor::uri_hash(doc.relative_path@),
                start_line: 0,
                end_line: 100000,
            },
        ]
    } else {
        let prev = scopes_upto(km, doc, lod, o - 1);
        let occ = doc.occurrences@[o - 1];
        let kind = occ_kind(km, occ);
        if is_def_occ(occ) && !lod_skips(lod, kind, occ.symbol@) && (kind
            == ScipSymbolKind::Function || kind == ScipSymbolKind::Method || kind
            == ScipSymbolKind::Class) {
            prev.push(
                Scope {
                    id: anchor::uri_hash(occ.symbol@),
                    start_line: occ_start_line(occ),
                    end_line: occ_end_line(occ),
                },
            )
        } else {
            prev
        }
    }
}

/// The full scope stack of a document.
pub open spec fn doc_scopes(km: Map<u64, i32>, doc: ScipDocument, lod: LevelOfDetail) -> Seq<
    Scope,
> {
    scopes_upto(km, doc, lod, doc.occurrences@.len() as int)
}

/// The edge a reference occurrence yields, if any: attributed to the
/// innermost enclosing scope, dropped as a self-reference when source and
/// target hash alike or their anchors coincide, and dropped when the target
/// is unregistered outside the High level of detail (which instead
/// synthesizes an `ext` anchor; an unregistered source gets a `ctx` anchor
/// at any level).
pub open spec fn occ_edge(
    reg: Map<u64, Seq<char>>,
    scopes: Seq<Scope>,
    fid: u64,
    lod: LevelOfDetail,
    occ: ScipOccurrence,
) -> Option<EdgeV> {
    let src = match enclosing_scope(scopes, occ_start_line(occ) as int) {
        Some(s) => s,
        None => fid,
    };
    let tgt = anchor::uri_hash(occ.symbol@);
    if src != tgt {
        let from = if reg.contains_key(src) {
            reg[src]
        } else {
            anchor::anchor_of("ctx"@, src)
        };
        if reg.contains_key(tgt) || lod == LevelOfDetail::High {
            let to = if reg.contains_key(tgt) {
                reg[tgt]
            } else {
                anchor::anchor_of("ext"@, tgt)
            };
            if from != to {
                Some(EdgeV { from: from, to: to, edge_type: EdgeType::Calls })
            } else {
                None
            }
        } else {
            None
        }
    } else {
        None
    }
}

/// The edges a document contributes from occurrence `o` on, in occurrence
/// order, before deduplication.
pub open spec fn doc_edges(
    reg: Map<u64, Seq<char>>,
    km: Map<u64, i32>,
    doc: ScipDocument,
    lod: LevelOfDetail,
    o: int,
) -> Seq<EdgeV>
    decreases doc.occurrences@.len() - o when 0 <= o <= doc.occurrences@.len()
{
    if o >= doc.occurrences@.len() {
        Seq::empty()
    } else {
        let occ = doc.occurrences@[o];
        let rest = doc_edges(reg, km, doc, lod, o + 1);
        if !is_def_occ(occ) {
            match occ_edge(
                reg,
                doc_scopes(km, doc, lod),
                anchor::uri_hash(doc.relative_path@),
                lod,
                occ,
            ) {
                Some(e) => seq![e] + rest,
                None => rest,
            }
        } else {
            rest
        }
    }
}

/// All edges of the graph before deduplication, documents in index order.
pub open spec fn all_edges(
    reg: Map<u64, Seq<char>>,
    km: Map<u64, i32>,
    docs: Seq<ScipDocument>,
    lod: LevelOfDetail,
    d: int,
) -> Seq<EdgeV>
    decreases docs.len() - d when 0 <= d <= docs.len()
{
    if d >= docs.len() {
        Seq::empty()
    } else {
        doc_edges(reg, km, docs[d], lod, 0) + all_edges(reg, km, docs, lod, d + 1)
    }
}

/// Two retained definitions carrying the same symbol URI materialize with
/// the same node id, whatever documents they stand in and whatever their
/// positions: the id is the anchor the registry holds at the URI's hash
/// (or, unregistered, a hash-derived fallback), so equal URIs always agree.
/// With `registry_of`'s first-writer-wins registration, revisiting a URI
/// across documents never changes that anchor.
pub proof fn lemma_same_uri_same_anchor(
    reg: Map<u64, Seq<char>>,
    km: Map<u64, i32>,
    fid1: u64,
    fid2: u64,
    t1: Option<SyntaxNode>,
    t2: Option<SyntaxNode>,
    occ1: ScipOccurrence,
    occ2: ScipOccurrence,
)
    requires
        occ1.symbol@ == occ2.symbol@,
    ensures
        occ_node(reg, km, fid1, t1, occ1).id == occ_node(reg, km, fid2, t2, occ2).id,
{
}

/// Convert a decoded index into the node/edge graph in two passes: anchors
/// are pre-registered for every document and definition, then nodes are
/// materialized with kind inference, level-of-detail pruning, parent
/// resolution and enrichment, and references are attributed to their
/// innermost enclosing scope. Parsed syntax trees are supplied per document,
/// aligned with the index's document list; a missing tree degrades
/// enrichment to nothing. The node list is exactly the per-occurrence
/// materialization in traversal order, and the edge list is exactly the
/// deduplicated edge set derived from the occurrences and scopes, sorted.
#[verifier::rlimit(100)]
pub fn convert_with_two_passes(
    index: &ScipIndex,
    kind_map: HashMap<u64, i32>,
    trees: &Vec<Option<SyntaxNode>>,
    config: &YcgConfig,
) -> (g: YcgGraph)
    requires
        trees@.len() == index.documents@.len(),
    ensures
        g.metadata.name@ == "ycg-v1.3"@,
        g.metadata.version@ == "1.3.0"@,
        g.definitions.deep_view() == all_nodes(
            registry_of(index.documents@),
            kind_map@,
            index.documents@,
            trees@,
            config.lod,
            0,
        ),
        forall|e: EdgeV|
            #[trigger] g.references.deep_view().contains(e) <==> all_edges(
                registry_of(index.documents@),
                kind_map@,
                index.documents@,
                config.lod,
                0,
            ).contains(e),
        forall|k: int|
            0 <= k < g.definitions.deep_view().len() ==> node_wf(
                #[trigger] g.definitions.deep_view()[k],
            ),
        forall|k: int|
            0 <= k < g.references.deep_view().len() ==> edge_wf(
                #[trigger] g.references.deep_view()[k],
            ),
        crate::adjacency::edges_sorted_by(false, g.references.deep_view()),
        g.references.deep_view().no_duplicates(),
{
    let ghost docsv = index.documents@;
    let ghost treesv = trees@;
    let ghost km = kind_map@;
    let mut nodes: Vec<SymbolNode> = Vec::new();
    let mut edges: Vec<ReferenceEdge> = Vec::new();
    let mut registry = AnchorRegistry::new();
    // Pass A: anchor pre-registration
    let mut d: usize = 0;
    while d < index.documents.len()
        invariant
            docsv == index.documents@,
            d <= docsv.len(),
            registry_of(docsv) == pass_a_docs(registry@, docsv, d as int),
        decreases index.documents.len() - d,
    {
        let doc = &index.documents[d];
        proof {
            assert(*doc == docsv[d as int]);
        }
        let ghost m0 = registry@;
        let file_id = anchor::hash_uri(doc.relative_path.as_str());
        let file_anchor = anchor::generate_anchor("file", file_id);
        registry.register(file_id, file_anchor);
        let ghost m1 = registry@;
        proof {
            assert(m1 == anchor::registered(
                m0,
                anchor::uri_hash(docsv[d as int].relative_path@),
                anchor::anchor_of("file"@, anchor::uri_hash(docsv[d as int].relative_path@)),
            ));
        }
        let mut o: usize = 0;
        while o < doc.occurrences.len()
            invariant
                docsv == index.documents@,
                d < docsv.len(),
                doc == &index.documents@[d as int],
                o <= docsv[d as int].occurrences@.len(),
                pass_a_occs(m1, docsv[d as int].occurrences@, 0) == pass_a_occs(
                    registry@,
                    docsv[d as int].occurrences@,
                    o as int,
                ),
            decreases doc.occurrences.len() - o,
        {
            let occ = &doc.occurrences[o];
            let ghost occv = docsv[d as int].occurrences@[o as int];
            proof {
                assert(*occ == occv);
            }
            let ghost mo = registry@;
            if (occ.symbol_roles & DEFINITION_ROLE) != 0 {
                let clean_name = uri::extract_name_from_uri(occ.symbol.as_str());
                let id = anchor::hash_uri(occ.symbol.as_str());
                let cv = text::chars_of(clean_name.as_str());
                let base: Vec<char> = if cv.len() == 0 || text::ends_with_exec(
                    &cv,
                    &text::chars_of(".ts"),
                ) || text::ends_with_exec(&cv, &text::chars_of(".rs")) {
                    text::chars_of("def")
                } else {
                    slug_exec(&cv)
                };
                proof {
                    assert(base@ == base_hint_of(occv.symbol@));
                }
                let base_s = text::string_from_chars(&base);
                let a = anchor::generate_anchor(base_s.as_str(), id);
                registry.register(id, a);
                proof {
                    assert(is_def_occ(occv));
                    assert(registry@ == anchor::registered(
                        mo,
                        anchor::uri_hash(occv.symbol@),
                        anchor::anchor_of(base_hint_of(occv.symbol@), anchor::uri_hash(occv.symbol@)),
                    ));
                    assert(pass_a_occs(mo, docsv[d as int].occurrences@, o as int) == pass_a_occs(
                        registry@,
                        docsv[d as int].occurrences@,
                        o + 1,
                    ));
                }
            } else {
                proof {
                    assert(!is_def_occ(occv));
                    assert(pass_a_occs(mo, docsv[d as int].occurrences@, o as int) == pass_a_occs(
                        registry@,
                        docsv[d as int].occurrences@,
                        o + 1,
                    ));
                }
            }
            o += 1;
        }
        proof {
            let occs = docsv[d as int].occurrences@;
            assert(pass_a_occs(registry@, occs, occs.len() as int) == registry@);
            assert(pass_a_occs(m1, occs, 0) == registry@);
            assert(pass_a_docs(m0, docsv, d as int) == pass_a_docs(registry@, docsv, d + 1));
        }
        d += 1;
    }
    proof {
        assert(pass_a_docs(registry@, docsv, docsv.len() as int) == registry@);
    }
    let ghost reg = registry@;
    proof {
        assert(reg == registry_of(docsv));
    }
    let ghost mut raw: Seq<EdgeV> = Seq::empty();
    // Pass B: materialization
    let mut d: usize = 0;
    proof {
        assert(nodes.deep_view() =~= Seq::<NodeV>::empty());
        assert(nodes.deep_view() + all_nodes(reg, km, docsv, treesv, config.lod, 0) =~= all_nodes(
            reg,
            km,
            docsv,
            treesv,
            config.lod,
            0,
        ));
        assert(raw + all_edges(reg, km, docsv, config.lod, 0) =~= all_edges(
            reg,
            km,
            docsv,
            config.lod,
            0,
        ));
    }
    while d < index.documents.len()
        invariant
            docsv == index.documents@,
            treesv == trees@,
            treesv.len() == docsv.len(),
            d <= docsv.len(),
            registry@ == reg,
            reg == registry_of(docsv),
            km == kind_map@,
            nodes.deep_view() + all_nodes(reg, km, docsv, treesv, config.lod, d as int)
                == all_nodes(reg, km, docsv, treesv, config.lod, 0),
            forall|e: EdgeV| #[trigger] edges.deep_view().contains(e) <==> raw.contains(e),
            raw + all_edges(reg, km, docsv, config.lod, d as int) == all_edges(
                reg,
                km,
                docsv,
                config.lod,
                0,
            ),
            forall|k: int|
                0 <= k < nodes.deep_view().len() ==> node_wf(#[trigger] nodes.deep_view()[k]),
            forall|k: int|
                0 <= k < edges.deep_view().len() ==> edge_wf(#[trigger] edges.deep_view()[k]),
            edges.deep_view().no_duplicates(),
        decreases index.documents.len() - d,
    {
        let doc = &index.documents[d];
        let ghost docv = docsv[d as int];
        let ghost treev = treesv[d as int];
        proof {
            assert(*doc == docv);
            assert(trees@[d as int] == treev);
        }
        let file_id = anchor::hash_uri(doc.relative_path.as_str());
        let mut local_scopes: Vec<Scope> = Vec::new();
        local_scopes.push(Scope { id: file_id, start_line: 0, end_line: 100000 });
        proof {
            assert(local_scopes@ =~= scopes_upto(km, docv, config.lod, 0));
        }
        // definitions
        let mut o: usize = 0;
        while o < doc.occurrences.len()
            invariant
                docsv == index.documents@,
                treesv == trees@,
                treesv.len() == docsv.len(),
                d < docsv.len(),
                doc == &index.documents@[d as int],
                docv == docsv[d as int],
                treev == treesv[d as int],
                file_id == anchor::uri_hash(docv.relative_path@),
                registry@ == reg,
                reg == registry_of(docsv),
                km == kind_map@,
                o <= docv.occurrences@.len(),
                nodes.deep_view() + doc_nodes(reg, km, docv, treev, config.lod, o as int)
                    + all_nodes(reg, km, docsv, treesv, config.lod, d + 1) == all_nodes(
                    reg,
                    km,
                    docsv,
                    treesv,
                    config.lod,
                    0,
                ),
                local_scopes@ == scopes_upto(km, docv, config.lod, o as int),
                forall|e: EdgeV| #[trigger] edges.deep_view().contains(e) <==> raw.contains(e),
                raw + all_edges(reg, km, docsv, config.lod, d as int) == all_edges(
                    reg,
                    km,
                    docsv,
                    config.lod,
                    0,
                ),
                forall|k: int|
                    0 <= k < nodes.deep_view().len() ==> node_wf(#[trigger] nodes.deep_view()[k]),
                forall|k: int|
                    0 <= k < edges.deep_view().len() ==> edge_wf(#[trigger] edges.deep_view()[k]),
                edges.deep_view().no_duplicates(),
            decreases doc.occurrences.len() - o,
        {
            let occ = &doc.occurrences[o];
            let ghost occv = docv.occurrences@[o as int];
            proof {
                assert(*occ == occv);
            }
            let is_def = (occ.symbol_roles & DEFINITION_ROLE) != 0;
            proof {
                assert(is_def == is_def_occ(occv));
            }
            if is_def {
                let id = anchor::hash_uri(occ.symbol.as_str());
                let raw_kind: i32 = match kind_map.get(&id) {
                    Some(k) => *k,
                    None => 0,
                };
                proof {
                    assert(raw_kind == (if km.contains_key(anchor::uri_hash(occv.symbol@)) {
                        km[anchor::uri_hash(occv.symbol@)]
                    } else {
                        0i32
                    }));
                }
                let kind = if raw_kind == 0 {
                    uri::infer_kind_from_uri(occ.symbol.as_str())
                } else {
                    uri::map_kind(raw_kind)
                };
                proof {
                    assert(kind == occ_kind(km, occv));
                }
                let uv = text::chars_of(occ.symbol.as_str());
                let should_skip = lod_skips_exec(config.lod, kind, &uv);
                if !should_skip {
                    let clean_name = uri::extract_name_from_uri(occ.symbol.as_str());
                    let start_line: i32 = if occ.range.len() > 0 {
                        occ.range[0]
                    } else {
                        0
                    };
                    let start_col: i32 = if occ.range.len() > 1 {
                        occ.range[1]
                    } else {
                        0
                    };
                    proof {
                        assert(start_line == occ_start_line(occv));
                        assert(start_col == occ_start_col(occv));
                    }
                    let final_name: String = if kind == ScipSymbolKind::Variable
                        && uri::is_generic_name(clean_name.as_str()) && start_line >= 0
                        && start_col >= 0 {
                        let resolved: Option<String> = match &trees[d] {
                            Some(root) => enricher::resolve_name_in_tree(
                                root,
                                start_line as usize,
                                start_col as usize,
                            ),
                            None => None,
                        };
                        match resolved {
                            Some(r) => r,
                            None => clean_name,
                        }
                    } else {
                        clean_name
                    };
                    proof {
                        assert(final_name@ == occ_name(km, treev, occv));
                    }
                    let extracted_parent = uri::extract_parent_id(occ.symbol.as_str());
                    let parent_anchor: Option<String> = match extracted_parent {
                        Some(pid) => {
                            match registry.get(pid) {
                                Some(a) => Some(a.clone()),
                                None => match registry.get(file_id) {
                                    Some(f) => Some(f.clone()),
                                    None => None,
                                },
                            }
                        },
                        None => {
                            if kind == ScipSymbolKind::File {
                                None
                            } else {
                                match registry.get(file_id) {
                                    Some(f) => Some(f.clone()),
                                    None => None,
                                }
                            }
                        },
                    };
                    proof {
                        assert(parent_anchor.deep_view() == occ_parent(reg, file_id, km, occv));
                    }
                    let skip_enrich = kind == ScipSymbolKind::File || kind
                        == ScipSymbolKind::Module;
                    let mut sig: Option<String> = None;
                    let mut documentation: Option<String> = None;
                    let mut logic: Option<LogicMetadata> = None;
                    let ghost e_spec = occ_enrichment(km, treev, occv);
                    if !skip_enrich && start_line >= 0 {
                        let enriched: Option<enricher::EnrichmentResult> = match &trees[d] {
                            Some(root) => enricher::enrich_tree(root, start_line as usize),
                            None => None,
                        };
                        match enriched {
                            Some(res) => {
                                proof {
                                    assert(e_spec == (
                                        res.signature.deep_view(),
                                        res.documentation.deep_view(),
                                        res.preconditions.deep_view(),
                                    ));
                                }
                                let is_logic_kind = kind == ScipSymbolKind::Method || kind
                                    == ScipSymbolKind::Function;
                                if is_logic_kind && res.preconditions.len() > 0 {
                                    logic = Some(
                                        LogicMetadata { preconditions: res.preconditions },
                                    );
                                }
                                if kind == ScipSymbolKind::Variable {
                                    sig = validate_variable_signature(
                                        res.signature,
                                        occ.symbol.as_str(),
                                    );
                                } else {
                                    sig = res.signature;
                                }
                                documentation = res.documentation;
                            },
                            None => {
                                proof {
                                    assert(e_spec == (
                                        None::<Seq<char>>,
                                        None::<Seq<char>>,
                                        Seq::<Seq<char>>::empty(),
                                    ));
                                }
                            },
                        }
                    } else {
                        proof {
                            assert(e_spec == (
                                None::<Seq<char>>,
                                None::<Seq<char>>,
                                Seq::<Seq<char>>::empty(),
                            ));
                        }
                    }
                    let my_anchor = registry.get_or_generate(id, "gen");
                    let node = SymbolNode {
                        id: my_anchor,
                        name: final_name,
                        kind,
                        parent_id: parent_anchor,
                        documentation,
                        signature: sig,
                        logic,
                    };
                    proof {
                        assert(node@ =~~= occ_node(reg, km, file_id, treev, occv));
                        assert(node_wf(node@));
                    }
                    let ghost before = nodes.deep_view();
                    nodes.push(node);
                    proof {
                        assert(nodes.deep_view() =~= before.push(node@));
                        assert(doc_nodes(reg, km, docv, treev, config.lod, o as int) =~= seq![
                            occ_node(reg, km, anchor::uri_hash(docv.relative_path@), treev, occv),
                        ] + doc_nodes(reg, km, docv, treev, config.lod, o + 1));
                        assert(nodes.deep_view() + doc_nodes(
                            reg,
                            km,
                            docv,
                            treev,
                            config.lod,
                            o + 1,
                        ) =~= before + doc_nodes(reg, km, docv, treev, config.lod, o as int));
                        assert forall|k: int|
                            0 <= k < nodes.deep_view().len() implies node_wf(
                            #[trigger] nodes.deep_view()[k],
                        ) by {
                            if k < before.len() {
                                assert(node_wf(before[k]));
                            }
                        }
                    }
                    let is_scope_kind = kind == ScipSymbolKind::Function || kind
                        == ScipSymbolKind::Method || kind == ScipSymbolKind::Class;
                    if is_scope_kind {
                        let end_line: i32 = if occ.range.len() > 2 {
                            occ.range[2]
                        } else {
                            start_line
                        };
                        proof {
                            assert(end_line == occ_end_line(occv));
                        }
                        local_scopes.push(Scope { id, start_line, end_line });
                        proof {
                            assert(local_scopes@ =~= scopes_upto(km, docv, config.lod, o + 1));
                        }
                    } else {
                        proof {
                            assert(local_scopes@ =~= scopes_upto(km, docv, config.lod, o + 1));
                        }
                    }
                } else {
                    proof {
                        assert(doc_nodes(reg, km, docv, treev, config.lod, o as int)
                            == doc_nodes(reg, km, docv, treev, config.lod, o + 1));
                        assert(local_scopes@ =~= scopes_upto(km, docv, config.lod, o + 1));
                    }
                }
            } else {
                proof {
                    assert(doc_nodes(reg, km, docv, treev, config.lod, o as int) == doc_nodes(
                        reg,
                        km,
                        docv,
                        treev,
                        config.lod,
                        o + 1,
                    ));
                    assert(local_scopes@ =~= scopes_upto(km, docv, config.lod, o + 1));
                }
            }
            o += 1;
        }
        proof {
            assert(doc_nodes(reg, km, docv, treev, config.lod, docv.occurrences@.len() as int)
                =~= Seq::<NodeV>::empty());
            assert(nodes.deep_view() + Seq::<NodeV>::empty() + all_nodes(
                reg,
                km,
                docsv,
                treesv,
                config.lod,
                d + 1,
            ) =~= nodes.deep_view() + all_nodes(reg, km, docsv, treesv, config.lod, d + 1));
            assert(local_scopes@ == doc_scopes(km, docv, config.lod));
        }
        // references
        let mut o: usize = 0;
        while o < doc.occurrences.len()
            invariant
                docsv == index.documents@,
                treesv == trees@,
                treesv.len() == docsv.len(),
                d < docsv.len(),
                doc == &index.documents@[d as int],
                docv == docsv[d as int],
                file_id == anchor::uri_hash(docv.relative_path@),
                registry@ == reg,
                reg == registry_of(docsv),
                km == kind_map@,
                o <= docv.occurrences@.len(),
                local_scopes@ == doc_scopes(km, docv, config.lod),
                nodes.deep_view() + all_nodes(reg, km, docsv, treesv, config.lod, d + 1)
                    == all_nodes(reg, km, docsv, treesv, config.lod, 0),
                forall|e: EdgeV| #[trigger] edges.deep_view().contains(e) <==> raw.contains(e),
                raw + doc_edges(reg, km, docv, config.lod, o as int) + all_edges(
                    reg,
                    km,
                    docsv,
                    config.lod,
                    d + 1,
                ) == all_edges(reg, km, docsv, config.lod, 0),
                forall|k: int|
                    0 <= k < nodes.deep_view().len() ==> node_wf(#[trigger] nodes.deep_view()[k]),
                forall|k: int|
                    0 <= k < edges.deep_view().len() ==> edge_wf(#[trigger] edges.deep_view()[k]),
                edges.deep_view().no_duplicates(),
            decreases doc.occurrences.len() - o,
        {
            let occ = &doc.occurrences[o];
            let ghost occv = docv.occurrences@[o as int];
            proof {
                assert(*occ == occv);
            }
            let is_def = (occ.symbol_roles & DEFINITION_ROLE) != 0;
            proof {
                assert(is_def == is_def_occ(occv));
            }
            if !is_def {
                let ghost espec = occ_edge(
                    reg,
                    doc_scopes(km, docv, config.lod),
                    file_id,
                    config.lod,
                    occv,
                );
                let ref_line: i32 = if occ.range.len() > 0 {
                    occ.range[0]
                } else {
                    0
                };
                proof {
                    assert(ref_line == occ_start_line(occv));
                }
                let source_u64 = match find_enclosing_scope(&local_scopes, ref_line) {
                    Some(sc) => sc,
                    None => file_id,
                };
                let target_u64 = anchor::hash_uri(occ.symbol.as_str());
                if source_u64 != target_u64 {
                    let from_anchor = registry.get_or_generate(source_u64, "ctx");
                    let target_exists = registry.contains(target_u64);
                    let keep = target_exists || config.lod == LevelOfDetail::High;
                    if keep {
                        let to_anchor = registry.get_or_generate(target_u64, "ext");
                        if !from_anchor.eq(&to_anchor) {
                            let edge = ReferenceEdge {
                                from: from_anchor,
                                to: to_anchor,
                                edge_type: EdgeType::Calls,
                            };
                            proof {
                                assert(espec == Some(edge@));
                                assert(edge_wf(edge@));
                            }
                            let ghost raw0 = raw;
                            proof {
                                raw = raw.push(edge@);
                            }
                            if !contains_edge(&edges, &edge) {
                                let ghost before = edges.deep_view();
                                edges.push(edge);
                                proof {
                                    assert(edges.deep_view() =~= before.push(edge@));
                                    assert forall|e: EdgeV|
                                        #[trigger] edges.deep_view().contains(e) <==> raw.contains(
                                        e,
                                    ) by {
                                        if edges.deep_view().contains(e) {
                                            let k = choose|k: int|
                                                0 <= k < edges.deep_view().len()
                                                    && edges.deep_view()[k] == e;
                                            if k < before.len() {
                                                assert(before.contains(e));
                                                assert(raw0.contains(e));
                                                assert(raw.contains(e)) by {
                                                    let j = choose|j: int|
                                                        0 <= j < raw0.len() && raw0[j] == e;
                                                    assert(raw[j] == e);
                                                }
                                            } else {
                                                assert(raw[raw.len() - 1] == e);
                                            }
                                        }
                                        if raw.contains(e) {
                                            let k = choose|k: int|
                                                0 <= k < raw.len() && raw[k] == e;
                                            if k < raw0.len() {
                                                assert(raw0[k] == e);
                                                assert(raw0.contains(e));
                                                assert(before.contains(e));
                                                let j = choose|j: int|
                                                    0 <= j < before.len() && before[j] == e;
                                                assert(edges.deep_view()[j] == e);
                                            } else {
                                                assert(edges.deep_view()[before.len() as int]
                                                    == e);
                                            }
                                        }
                                    }
                                    assert forall|k: int|
                                        0 <= k < edges.deep_view().len() implies edge_wf(
                                        #[trigger] edges.deep_view()[k],
                                    ) by {
                                        if k < before.len() {
                                            assert(edge_wf(before[k]));
                                        }
                                    }
                                    assert(edges.deep_view().no_duplicates()) by {
                                        let nv = edges.deep_view();
                                        assert forall|a: int, b: int|
                                            0 <= a < nv.len() && 0 <= b < nv.len() && a != b
                                                implies nv[a] != nv[b] by {
                                            if a < before.len() && b < before.len() {
                                                assert(before[a] != before[b]);
                                            } else if a < before.len() && b == before.len() {
                                                if nv[a] == nv[b] {
                                                    assert(before.contains(edge@));
                                                    assert(raw0.contains(edge@));
                                                }
                                            } else if b < before.len() && a == before.len() {
                                                if nv[a] == nv[b] {
                                                    assert(before.contains(edge@));
                                                    assert(raw0.contains(edge@));
                                                }
                                            }
                                        }
                                    }
                                }
                            } else {
                                proof {
                                    assert(edges.deep_view().contains(edge@));
                                    assert forall|e: EdgeV|
                                        #[trigger] edges.deep_view().contains(e) <==> raw.contains(
                                        e,
                                    ) by {
                                        if edges.deep_view().contains(e) {
                                            assert(raw0.contains(e));
                                            let j = choose|j: int|
                                                0 <= j < raw0.len() && raw0[j] == e;
                                            assert(raw[j] == e);
                                        }
                                        if raw.contains(e) {
                                            let k = choose|k: int|
                                                0 <= k < raw.len() && raw[k] == e;
                                            if k < raw0.len() {
                                                assert(raw0[k] == e);
                                                assert(raw0.contains(e));
                                            } else {
                                                assert(e == edge@);
                                            }
                                        }
                                    }
                                }
                            }
                            proof {
                                assert(doc_edges(reg, km, docv, config.lod, o as int) =~= seq![
                                    edge@,
                                ] + doc_edges(reg, km, docv, config.lod, o + 1));
                                assert(raw + doc_edges(reg, km, docv, config.lod, o + 1)
                                    =~= raw0 + doc_edges(reg, km, docv, config.lod, o as int));
                            }
                        } else {
                            proof {
                                assert(espec is None);
                                assert(doc_edges(reg, km, docv, config.lod, o as int)
                                    == doc_edges(reg, km, docv, config.lod, o + 1));
                            }
                        }
                    } else {
                        proof {
                            assert(espec is None);
                            assert(doc_edges(reg, km, docv, config.lod, o as int) == doc_edges(
                                reg,
                                km,
                                docv,
                                config.lod,
                                o + 1,
                            ));
                        }
                    }
                } else {
                    proof {
                        assert(espec is None);
                        assert(doc_edges(reg, km, docv, config.lod, o as int) == doc_edges(
                            reg,
                            km,
                            docv,
                            config.lod,
                            o + 1,
                        ));
                    }
                }
            } else {
                proof {
                    assert(doc_edges(reg, km, docv, config.lod, o as int) == doc_edges(
                        reg,
                        km,
                        docv,
                        config.lod,
                        o + 1,
                    ));
                }
            }
            o += 1;
        }
        proof {
            assert(doc_edges(reg, km, docv, config.lod, docv.occurrences@.len() as int)
                =~= Seq::<EdgeV>::empty());
            assert(raw + Seq::<EdgeV>::empty() + all_edges(reg, km, docsv, config.lod, d + 1)
                =~= raw + all_edges(reg, km, docsv, config.lod, d + 1));
        }
        d += 1;
    }
    proof {
        assert(all_nodes(reg, km, docsv, treesv, config.lod, docsv.len() as int) =~= Seq::<
            NodeV,
        >::empty());
        assert(nodes.deep_view() + Seq::<NodeV>::empty() =~= nodes.deep_view());
        assert(all_edges(reg, km, docsv, config.lod, docsv.len() as int) =~= Seq::<
            EdgeV,
        >::empty());
        assert(raw + Seq::<EdgeV>::empty() =~= raw);
        assert(raw == all_edges(reg, km, docsv, config.lod, 0));
    }
    let ghost pre_sort = edges.deep_view();
    let sorted = crate::adjacency::sort_edges_by(false, edges);
    proof {
        pre_sort.lemma_multiset_has_no_duplicates();
        broadcast use vstd::seq_lib::group_to_multiset_ensures;

        assert forall|x: EdgeV| sorted.deep_view().contains(x) implies sorted.deep_view()
            .to_multiset().count(x) == 1 by {
            assert(sorted.deep_view().to_multiset().count(x) > 0);
            assert(pre_sort.to_multiset().count(x) > 0);
            assert(pre_sort.contains(x));
            assert(pre_sort.to_multiset().count(x) == 1);
        }
        sorted.deep_view().lemma_multiset_has_no_duplicates_conv();
        assert forall|x: EdgeV|
            #[trigger] sorted.deep_view().contains(x) <==> pre_sort.contains(x) by {
            if sorted.deep_view().contains(x) {
                assert(sorted.deep_view().to_multiset().count(x) > 0);
                assert(pre_sort.to_multiset().count(x) > 0);
            }
            if pre_sort.contains(x) {
                assert(pre_sort.to_multiset().count(x) > 0);
                assert(sorted.deep_view().to_multiset().count(x) > 0);
            }
        }
        assert forall|k: int|
            0 <= k < sorted.deep_view().len() implies edge_wf(
            #[trigger] sorted.deep_view()[k],
        ) by {
            let x = sorted.deep_view()[k];
            assert(sorted.deep_view().contains(x));
            assert(pre_sort.contains(x));
            let j = choose|j: int| 0 <= j < pre_sort.len() && pre_sort[j] == x;
            assert(edge_wf(pre_sort[j]));
        }
    }
    let name_v = text::chars_of("ycg-v1.3");
    let version_v = text::chars_of("1.3.0");
    YcgGraph {
        metadata: ProjectMetadata {
            name: text::string_from_chars(&name_v),
            version: text::string_from_chars(&version_v),
        },
        definitions: nodes,
        references: sorted,
    }
}

/// Convert a decoded index into the graph: build the kind table, then run
/// the two passes. Trees parsed from each document's source are supplied
/// alongside, aligned with the document list.
pub fn convert_scip_to_ycg(
    index: &ScipIndex,
    trees: &Vec<Option<SyntaxNode>>,
    config: &YcgConfig,
) -> (g: YcgGraph)
    requires
        trees@.len() == index.documents@.len(),
    ensures
        g.metadata.name@ == "ycg-v1.3"@,
        g.metadata.version@ == "1.3.0"@,
        g.definitions.deep_view() == all_nodes(
            registry_of(index.documents@),
            kind_map_of(*index),
            index.documents@,
            trees@,
            config.lod,
            0,
        ),
        forall|e: EdgeV|
            #[trigger] g.references.deep_view().contains(e) <==> all_edges(
                registry_of(index.documents@),
                kind_map_of(*index),
                index.documents@,
                config.lod,
                0,
            ).contains(e),
        forall|k: int|
            0 <= k < g.definitions.deep_view().len() ==> node_wf(
                #[trigger] g.definitions.deep_view()[k],
            ),
        forall|k: int|
            0 <= k < g.references.deep_view().len() ==> edge_wf(
                #[trigger] g.references.deep_view()[k],
            ),
        crate::adjacency::edges_sorted_by(false, g.references.deep_view()),
        g.references.deep_view().no_duplicates(),
{
    let kind_map = build_kind_map(index);
    convert_with_two_passes(index, kind_map, trees, config)
}

} // verus!
