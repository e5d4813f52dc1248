//! Enrichment engine: a plain syntax-tree model and the extraction of
//! names, signatures, documentation and guard-clause preconditions from it.

use vstd::prelude::*;

use crate::framework;
use crate::sigfmt;
use crate::text;

verus! {

/// A node of a parsed source file: kind, position range, raw text, children.
#[derive(Debug)]
pub struct SyntaxNode {
    pub kind: String,
    pub start_row: usize,
    pub start_col: usize,
    pub end_row: usize,
    pub end_col: usize,
    pub text: String,
    pub children: Vec<SyntaxNode>,
}

/// Whether a position lies within a node's range.
pub open spec fn pos_in(n: SyntaxNode, line: int, col: int) -> bool {
    &&& !(line < n.start_row || line > n.end_row)
    &&& !(line == n.start_row && col < n.start_col)
    &&& !(line == n.end_row && col > n.end_col)
}

/// The smallest node containing a position: a child's match is preferred
/// over its parent, ties broken by the first matching child.
pub open spec fn node_at(n: SyntaxNode, line: int, col: int) -> Option<SyntaxNode>
    decreases n, 1int,
{
    if !pos_in(n, line, col) {
        None
    } else {
        match node_at_cs(n.children@, 0, line, col) {
            Some(m) => Some(m),
            None => Some(n),
        }
    }
}

/// The first child from `i` on whose subtree contains the position.
pub open spec fn node_at_cs(cs: Seq<SyntaxNode>, i: int, line: int, col: int) -> Option<SyntaxNode>
    decreases cs, (if i < cs.len() { cs.len() - i } else { 0int }),
{
    if i < 0 || i >= cs.len() {
        None
    } else {
        match node_at(cs[i], line, col) {
            Some(m) => Some(m),
            None => node_at_cs(cs, i + 1, line, col),
        }
    }
}

/// Executable search for the smallest node at a position.
pub fn node_at_exec<'a>(n: &'a SyntaxNode, line: usize, col: usize) -> (r: Option<&'a SyntaxNode>)
    ensures
        match r {
            Some(m) => node_at(*n, line as int, col as int) == Some(*m),
            None => node_at(*n, line as int, col as int) is None,
        },
    decreases *n, 1int,
{
    let inside = !(line < n.start_row || line > n.end_row) && !(line == n.start_row && col
        < n.start_col) && !(line == n.end_row && col > n.end_col);
    if !inside {
        return None;
    }
    match node_at_cs_exec(&n.children, 0, line, col) {
        Some(m) => Some(m),
        None => Some(n),
    }
}

fn node_at_cs_exec<'a>(cs: &'a Vec<SyntaxNode>, i: usize, line: usize, col: usize) -> (r: Option<
    &'a SyntaxNode,
>)
    ensures
        match r {
            Some(m) => node_at_cs(cs@, i as int, line as int, col as int) == Some(*m),
            None => node_at_cs(cs@, i as int, line as int, col as int) is None,
        },
    decreases cs@, (if (i as int) < cs@.len() { cs@.len() - i } else { 0int }),
{
    if i >= cs.len() {
        return None;
    }
    proof {
        assert(cs@[i as int] == cs[i as int]);
    }
    match node_at_exec(&cs[i], line, col) {
        Some(m) => Some(m),
        None => node_at_cs_exec(cs, i + 1, line, col),
    }
}

/// Syntax kinds that count as definitions for enrichment.
pub open spec fn is_def_kind(k: Seq<char>) -> bool {
    ||| k == "function_declaration"@
    ||| k == "class_declaration"@
    ||| k == "method_definition"@
    ||| k == "public_field_definition"@
    ||| k == "property_signature"@
    ||| k == "lexical_declaration"@
    ||| k == "variable_declaration"@
    ||| k == "function_item"@
    ||| k == "struct_item"@
    ||| k == "impl_item"@
}

fn is_def_kind_exec(k: &String) -> (r: bool)
    ensures
        r == is_def_kind(k@),
{
    let v = text::chars_of(k.as_str());
    if text::chars_eq(&v, &text::chars_of("function_declaration")) {
        return true;
    }
    if text::chars_eq(&v, &text::chars_of("class_declaration")) {
        return true;
    }
    if text::chars_eq(&v, &text::chars_of("method_definition")) {
        return true;
    }
    if text::chars_eq(&v, &text::chars_of("public_field_definition")) {
        return true;
    }
    if text::chars_eq(&v, &text::chars_of("property_signature")) {
        return true;
    }
    if text::chars_eq(&v, &text::chars_of("lexical_declaration")) {
        return true;
    }
    if text::chars_eq(&v, &text::chars_of("variable_declaration")) {
        return true;
    }
    if text::chars_eq(&v, &text::chars_of("function_item")) {
        return true;
    }
    if text::chars_eq(&v, &text::chars_of("struct_item")) {
        return true;
    }
    if text::chars_eq(&v, &text::chars_of("impl_item")) {
        return true;
    }
    false
}

/// Comment syntax kinds.
pub open spec fn is_comment_kind(k: Seq<char>) -> bool {
    k == "comment"@ || k == "line_comment"@ || k == "block_comment"@
}

fn is_comment_kind_exec(k: &String) -> (r: bool)
    ensures
        r == is_comment_kind(k@),
{
    let v = text::chars_of(k.as_str());
    text::chars_eq(&v, &text::chars_of("comment")) || text::chars_eq(
        &v,
        &text::chars_of("line_comment"),
    ) || text::chars_eq(&v, &text::chars_of("block_comment"))
}

/// A comment's text with doc-comment delimiters removed and ends trimmed.
pub open spec fn cleaned_comment(t: Seq<char>) -> Seq<char> {
    text::trimmed(
        sigfmt::replace_all(
            sigfmt::replace_all(
                sigfmt::replace_all(
                    sigfmt::replace_all(t, "///"@, Seq::empty()),
                    "/**"@,
                    Seq::empty(),
                ),
                "*/"@,
                Seq::empty(),
            ),
            "*"@,
            Seq::empty(),
        ),
    )
}

fn cleaned_comment_exec(t: &Vec<char>) -> (r: Vec<char>)
    ensures
        r@ == cleaned_comment(t@),
{
    proof {
        reveal_strlit("///");
        reveal_strlit("/**");
        reveal_strlit("*/");
        reveal_strlit("*");
    }
    let empty: Vec<char> = Vec::new();
    let a = sigfmt::replace_all_exec(t, &text::chars_of("///"), &empty);
    let b = sigfmt::replace_all_exec(&a, &text::chars_of("/**"), &empty);
    let c = sigfmt::replace_all_exec(&b, &text::chars_of("*/"), &empty);
    let d = sigfmt::replace_all_exec(&c, &text::chars_of("*"), &empty);
    text::trim(&d)
}

/// The contiguous run of comments directly before index `i`, cleaned, in
/// document order.
pub open spec fn comment_run(cs: Seq<SyntaxNode>, i: int) -> Seq<Seq<char>>
    decreases (if i >= 0 { i } else { 0int }),
{
    if i <= 0 || i > cs.len() {
        Seq::empty()
    } else if is_comment_kind(cs[i - 1].kind@) {
        comment_run(cs, i - 1).push(cleaned_comment(cs[i - 1].text@))
    } else {
        Seq::empty()
    }
}

/// The documentation block before index `i`: the cleaned comments joined
/// with newlines, or nothing when no comment stands directly before.
pub open spec fn comments_before(cs: Seq<SyntaxNode>, i: int) -> Option<Seq<char>> {
    let texts = comment_run(cs, i);
    if texts.len() == 0 {
        None
    } else {
        Some(framework::join_nl(texts))
    }
}

fn comment_run_exec(cs: &Vec<SyntaxNode>, i: usize) -> (r: Vec<Vec<char>>)
    requires
        i <= cs@.len(),
    ensures
        r.deep_view() == comment_run(cs@, i as int),
    decreases i,
{
    if i == 0 {
        let r: Vec<Vec<char>> = Vec::new();
        proof {
            assert(r.deep_view() =~= comment_run(cs@, 0));
        }
        return r;
    }
    proof {
        assert(cs@[i - 1] == cs[i - 1]);
    }
    if is_comment_kind_exec(&cs[i - 1].kind) {
        let mut r = comment_run_exec(cs, i - 1);
        let tv = text::chars_of(cs[i - 1].text.as_str());
        let cleaned = cleaned_comment_exec(&tv);
        let ghost before = r.deep_view();
        r.push(cleaned);
        proof {
            assert(r.deep_view() =~~= before.push(cleaned@));
        }
        r
    } else {
        let r: Vec<Vec<char>> = Vec::new();
        proof {
            assert(r.deep_view() =~= comment_run(cs@, i as int));
        }
        r
    }
}

fn comments_before_exec(cs: &Vec<SyntaxNode>, i: usize) -> (r: Option<String>)
    requires
        i <= cs@.len(),
    ensures
        r.deep_view() == comments_before(cs@, i as int),
{
    let run = comment_run_exec(cs, i);
    if run.len() == 0 {
        proof {
            assert(comment_run(cs@, i as int).len() == 0);
        }
        return None;
    }
    let mut joined: Vec<char> = Vec::new();
    let mut j: usize = 0;
    while j < run.len()
        invariant
            j <= run@.len(),
            run@.len() == run.deep_view().len(),
            joined@ == framework::join_nl(run.deep_view().subrange(0, j as int)),
        decreases run.len() - j,
    {
        proof {
            assert(run.deep_view().subrange(0, j + 1) =~= run.deep_view().subrange(
                0,
                j as int,
            ).push(run.deep_view()[j as int]));
            framework::lemma_join_push(
                run.deep_view().subrange(0, j as int),
                run.deep_view()[j as int],
            );
        }
        if j > 0 {
            joined.push('\n');
        }
        text::append_vec(&mut joined, &run[j]);
        proof {
            assert(run@[j as int]@ =~= run.deep_view()[j as int]);
        }
        j += 1;
    }
    proof {
        assert(run.deep_view().subrange(0, run.deep_view().len() as int) =~= run.deep_view());
    }
    Some(text::string_from_chars(&joined))
}

/// The deepest definition-like node whose line range contains `line`,
/// with its leading documentation once the surrounding sibling list is
/// known; the flag says whether the documentation has been resolved.
pub open spec fn find_def(n: SyntaxNode, line: int) -> Option<(SyntaxNode, Option<Seq<char>>, bool)>
    decreases n, 1int,
{
    if line < n.start_row || line > n.end_row {
        None
    } else {
        match find_def_cs(n.children@, 0, line) {
            Some(t) => Some(t),
            None => if is_def_kind(n.kind@) {
                Some((n, None, false))
            } else {
                None
            },
        }
    }
}

/// Search of a child list: the first child whose subtree holds a match wins,
/// and an unresolved match takes its documentation from this sibling list.
pub open spec fn find_def_cs(cs: Seq<SyntaxNode>, i: int, line: int) -> Option<
    (SyntaxNode, Option<Seq<char>>, bool),
>
    decreases cs, (if i < cs.len() { cs.len() - i } else { 0int }),
{
    if i < 0 || i >= cs.len() {
        None
    } else {
        match find_def(cs[i], line) {
            Some(t) => if t.2 {
                Some(t)
            } else {
                Some((t.0, comments_before(cs, i), true))
            },
            None => find_def_cs(cs, i + 1, line),
        }
    }
}

/// Executable search for the deepest definition and its documentation.
fn find_def_exec<'a>(n: &'a SyntaxNode, line: usize) -> (r: Option<
    (&'a SyntaxNode, Option<String>, bool),
>)
    ensures
        match r {
            Some(t) => {
                &&& find_def(*n, line as int) matches Some(s)
                &&& s.0 == *t.0
                &&& s.1 == t.1.deep_view()
                &&& s.2 == t.2
            },
            None => find_def(*n, line as int) is None,
        },
    decreases *n, 1int,
{
    if line < n.start_row || line > n.end_row {
        return None;
    }
    match find_def_cs_exec(&n.children, 0, line) {
        Some(t) => Some(t),
        None => {
            if is_def_kind_exec(&n.kind) {
                Some((n, None, false))
            } else {
                None
            }
        },
    }
}

fn find_def_cs_exec<'a>(cs: &'a Vec<SyntaxNode>, i: usize, line: usize) -> (r: Option<
    (&'a SyntaxNode, Option<String>, bool),
>)
    ensures
        match r {
            Some(t) => {
                &&& find_def_cs(cs@, i as int, line as int) matches Some(s)
                &&& s.0 == *t.0
                &&& s.1 == t.1.deep_view()
                &&& s.2 == t.2
            },
            None => find_def_cs(cs@, i as int, line as int) is None,
        },
    decreases cs@, (if (i as int) < cs@.len() { cs@.len() - i } else { 0int }),
{
    if i >= cs.len() {
        return None;
    }
    proof {
        assert(cs@[i as int] == cs[i as int]);
    }
    match find_def_exec(&cs[i], line) {
        Some((d, com, resolved)) => {
            if resolved {
                Some((d, com, true))
            } else {
                let c = comments_before_exec(cs, i);
                Some((d, c, true))
            }
        },
        None => find_def_cs_exec(cs, i + 1, line),
    }
}


/// Position of the first `{` at zero parenthesis and angle-bracket depth,
/// scanning from `i`.
pub open spec fn body_start_from(s: Seq<char>, i: int, pd: int, ad: int) -> Option<int>
    decreases s.len() - i when 0 <= i <= s.len()
{
    if i >= s.len() {
        None
    } else {
        let c = s[i];
        if c == '(' {
            body_start_from(s, i + 1, pd + 1, ad)
        } else if c == ')' {
            body_start_from(s, i + 1, pd - 1, ad)
        } else if c == '<' {
            body_start_from(s, i + 1, pd, ad + 1)
        } else if c == '>' {
            body_start_from(s, i + 1, pd, ad - 1)
        } else if c == '{' && pd == 0 && ad == 0 {
            Some(i)
        } else {
            body_start_from(s, i + 1, pd, ad)
        }
    }
}

/// Where a definition's body begins: the first unnested opening brace.
pub open spec fn body_start(s: Seq<char>) -> Option<int> {
    body_start_from(s, 0, 0, 0)
}

proof fn lemma_body_start_range(s: Seq<char>, i: int, pd: int, ad: int)
    requires
        0 <= i <= s.len(),
    ensures
        match body_start_from(s, i, pd, ad) {
            Some(k) => i <= k < s.len(),
            None => true,
        },
    decreases s.len() - i,
{
    if i < s.len() {
        let c = s[i];
        if c == '(' {
            lemma_body_start_range(s, i + 1, pd + 1, ad);
        } else if c == ')' {
            lemma_body_start_range(s, i + 1, pd - 1, ad);
        } else if c == '<' {
            lemma_body_start_range(s, i + 1, pd, ad + 1);
        } else if c == '>' {
            lemma_body_start_range(s, i + 1, pd, ad - 1);
        } else if c == '{' && pd == 0 && ad == 0 {
        } else {
            lemma_body_start_range(s, i + 1, pd, ad);
        }
    }
}

/// Find the start of a definition's body by bracket matching.
pub fn find_body_start(t: &str) -> (r: Option<usize>)
    ensures
        match r {
            Some(k) => body_start(t@) == Some(k as int) && k < t@.len(),
            None => body_start(t@) is None,
        },
{
    let v = text::chars_of(t);
    find_body_start_chars(&v)
}

pub(crate) fn find_body_start_chars(v: &Vec<char>) -> (r: Option<usize>)
    ensures
        match r {
            Some(k) => body_start(v@) == Some(k as int) && k < v@.len(),
            None => body_start(v@) is None,
        },
{
    let n = v.len();
    let mut i: usize = 0;
    let mut po: usize = 0;
    let mut pc: usize = 0;
    let mut ao: usize = 0;
    let mut ac: usize = 0;
    while i < n
        invariant
            n == v@.len(),
            i <= n,
            po <= i,
            pc <= i,
            ao <= i,
            ac <= i,
            body_start(v@) == body_start_from(
                v@,
                i as int,
                po as int - pc as int,
                ao as int - ac as int,
            ),
        decreases n - i,
    {
        let c = v[i];
        if c == '(' {
            po += 1;
        } else if c == ')' {
            pc += 1;
        } else if c == '<' {
            ao += 1;
        } else if c == '>' {
            ac += 1;
        } else if c == '{' && po == pc && ao == ac {
            return Some(i);
        }
        i += 1;
    }
    None
}

/// A signature is truncated when it ends in an unmatched opener or its
/// bracket counts disagree.
pub open spec fn truncated_spec(sig: Seq<char>) -> bool {
    ||| (sig.len() > 0 && (sig.last() == '(' || sig.last() == '<'))
    ||| crate::serializer::count_char_occ(sig, '(') != crate::serializer::count_char_occ(sig, ')')
    ||| crate::serializer::count_char_occ(sig, '<') != crate::serializer::count_char_occ(sig, '>')
}

fn count_char_occ_exec(v: &Vec<char>, c: char) -> (r: usize)
    ensures
        r as int == crate::serializer::count_char_occ(v@, c),
{
    let mut n: usize = 0;
    let mut i: usize = 0;
    proof {
        assert(v@.subrange(0, 0) =~= Seq::<char>::empty());
    }
    while i < v.len()
        invariant
            i <= v@.len(),
            n <= i,
            n as int == crate::serializer::count_char_occ(v@.subrange(0, i as int), c),
        decreases v.len() - i,
    {
        proof {
            assert(v@.subrange(0, i + 1).drop_last() =~= v@.subrange(0, i as int));
            assert(v@.subrange(0, i + 1).last() == v@[i as int]);
        }
        if v[i] == c {
            n += 1;
        }
        i += 1;
    }
    proof {
        assert(v@.subrange(0, v@.len() as int) =~= v@);
    }
    n
}

/// Whether a signature text is truncated or incomplete.
pub fn is_truncated(signature: &str) -> (r: bool)
    ensures
        r == truncated_spec(signature@),
{
    let v = text::chars_of(signature);
    is_truncated_chars(&v)
}

pub(crate) fn is_truncated_chars(v: &Vec<char>) -> (r: bool)
    ensures
        r == truncated_spec(v@),
{
    if v.len() > 0 && (v[v.len() - 1] == '(' || v[v.len() - 1] == '<') {
        return true;
    }
    let po = count_char_occ_exec(v, '(');
    let pc = count_char_occ_exec(v, ')');
    if po != pc {
        return true;
    }
    let ao = count_char_occ_exec(v, '<');
    let ac = count_char_occ_exec(v, '>');
    ao != ac
}

/// The signature extracted from a definition's raw text: the text before the
/// body, trimmed, or the whole trimmed text without a body; rejected when
/// truncated.
pub open spec fn signature_of(t: Seq<char>) -> Option<Seq<char>> {
    let sig = match body_start(t) {
        Some(idx) => text::trimmed(t.subrange(0, idx)),
        None => text::trimmed(t),
    };
    if truncated_spec(sig) {
        None
    } else {
        Some(sig)
    }
}

fn signature_of_exec(t: &Vec<char>) -> (r: Option<Vec<char>>)
    ensures
        match r {
            Some(x) => signature_of(t@) == Some(x@),
            None => signature_of(t@) is None,
        },
{
    let sig = match find_body_start_chars(t) {
        Some(idx) => {
            let part = text::subvec(t, 0, idx);
            text::trim(&part)
        },
        None => text::trim(t),
    };
    if is_truncated_chars(&sig) {
        None
    } else {
        Some(sig)
    }
}

/// Leading characters that are parentheses.
pub open spec fn leading_parens(s: Seq<char>) -> int
    decreases s.len(),
{
    if s.len() == 0 {
        0
    } else if s[0] == '(' || s[0] == ')' {
        1 + leading_parens(s.drop_first())
    } else {
        0
    }
}

/// Trailing characters that are parentheses.
pub open spec fn trailing_parens(s: Seq<char>) -> int
    decreases s.len(),
{
    if s.len() == 0 {
        0
    } else if s.last() == '(' || s.last() == ')' {
        1 + trailing_parens(s.drop_last())
    } else {
        0
    }
}

/// `s` with one layer of surrounding parentheses runs removed.
pub open spec fn paren_trimmed(s: Seq<char>) -> Seq<char> {
    if leading_parens(s) == s.len() {
        Seq::empty()
    } else {
        s.subrange(leading_parens(s), s.len() - trailing_parens(s))
    }
}

proof fn lemma_leading_parens(s: Seq<char>)
    ensures
        0 <= leading_parens(s) <= s.len(),
        forall|j: int| 0 <= j < leading_parens(s) ==> (s[j] == '(' || s[j] == ')'),
        leading_parens(s) < s.len() ==> !(s[leading_parens(s)] == '(' || s[leading_parens(s)]
            == ')'),
    decreases s.len(),
{
    if s.len() > 0 && (s[0] == '(' || s[0] == ')') {
        lemma_leading_parens(s.drop_first());
        assert forall|j: int| 0 <= j < leading_parens(s) implies (s[j] == '(' || s[j]
            == ')') by {
            if j > 0 {
                assert(s.drop_first()[j - 1] == '(' || s.drop_first()[j - 1] == ')');
            }
        }
    }
}

proof fn lemma_trailing_parens(s: Seq<char>)
    ensures
        0 <= trailing_parens(s) <= s.len(),
        forall|j: int| s.len() - trailing_parens(s) <= j < s.len() ==> (s[j] == '(' || s[j] == ')'),
        trailing_parens(s) < s.len() ==> !(s[s.len() - 1 - trailing_parens(s)] == '(' || s[s.len()
            - 1 - trailing_parens(s)] == ')'),
    decreases s.len(),
{
    if s.len() > 0 && (s.last() == '(' || s.last() == ')') {
        lemma_trailing_parens(s.drop_last());
        assert forall|j: int| s.len() - trailing_parens(s) <= j < s.len() implies (s[j] == '('
            || s[j] == ')') by {
            if j < s.len() - 1 {
                assert(s.drop_last()[j] == '(' || s.drop_last()[j] == ')');
            }
        }
    }
}

proof fn lemma_leading_parens_count(s: Seq<char>, k: int)
    requires
        0 <= k <= s.len(),
        forall|j: int| 0 <= j < k ==> (s[j] == '(' || s[j] == ')'),
        k < s.len() ==> !(s[k] == '(' || s[k] == ')'),
    ensures
        leading_parens(s) == k,
    decreases s.len(),
{
    if s.len() > 0 && (s[0] == '(' || s[0] == ')') {
        assert(k > 0);
        assert forall|j: int| 0 <= j < k - 1 implies (s.drop_first()[j] == '('
            || s.drop_first()[j] == ')') by {
            assert(s[j + 1] == '(' || s[j + 1] == ')');
        }
        lemma_leading_parens_count(s.drop_first(), k - 1);
    }
}

proof fn lemma_trailing_parens_count(s: Seq<char>, k: int)
    requires
        0 <= k <= s.len(),
        forall|j: int| s.len() - k <= j < s.len() ==> (s[j] == '(' || s[j] == ')'),
        k < s.len() ==> !(s[s.len() - 1 - k] == '(' || s[s.len() - 1 - k] == ')'),
    ensures
        trailing_parens(s) == k,
    decreases s.len(),
{
    if s.len() > 0 && (s.last() == '(' || s.last() == ')') {
        assert(k > 0);
        assert forall|j: int| s.drop_last().len() - (k - 1) <= j < s.drop_last().len() implies (
        s.drop_last()[j] == '(' || s.drop_last()[j] == ')') by {
            assert(s[j] == '(' || s[j] == ')');
        }
        lemma_trailing_parens_count(s.drop_last(), k - 1);
    }
}

fn paren_trim_exec(v: &Vec<char>) -> (r: Vec<char>)
    ensures
        r@ == paren_trimmed(v@),
{
    let n = v.len();
    let mut start: usize = 0;
    while start < n && (v[start] == '(' || v[start] == ')')
        invariant
            n == v@.len(),
            start <= n,
            forall|j: int| 0 <= j < start ==> (v@[j] == '(' || v@[j] == ')'),
        decreases n - start,
    {
        start += 1;
    }
    proof {
        lemma_leading_parens_count(v@, start as int);
    }
    if start == n {
        proof {
            assert(paren_trimmed(v@) =~= Seq::<char>::empty());
        }
        return Vec::new();
    }
    let mut end: usize = n;
    while end > start && (v[end - 1] == '(' || v[end - 1] == ')')
        invariant
            n == v@.len(),
            start < n,
            !(v@[start as int] == '(' || v@[start as int] == ')'),
            start <= end <= n,
            forall|j: int| end <= j < n ==> (v@[j] == '(' || v@[j] == ')'),
        decreases end,
    {
        end -= 1;
    }
    proof {
        if end == start {
            assert(v@[start as int] == '(' || v@[start as int] == ')');
        }
        assert(!(v@[end - 1] == '(' || v@[end - 1] == ')'));
        lemma_trailing_parens_count(v@, n - end);
        lemma_leading_parens(v@);
    }
    text::subvec(v, start, end)
}

/// The precondition string lifted from a guard clause's condition text.
pub open spec fn precond_text(cond: Seq<char>) -> Seq<char> {
    "must avoid: "@ + text::trimmed(paren_trimmed(cond))
}

/// The first child from `i` on with the given kind.
pub open spec fn first_child_kind(cs: Seq<SyntaxNode>, i: int, k: Seq<char>) -> Option<SyntaxNode>
    decreases cs.len() - i when 0 <= i <= cs.len()
{
    if i >= cs.len() {
        None
    } else if cs[i].kind@ == k {
        Some(cs[i])
    } else {
        first_child_kind(cs, i + 1, k)
    }
}

fn first_child_kind_exec<'a>(cs: &'a Vec<SyntaxNode>, k: &Vec<char>) -> (r: Option<
    &'a SyntaxNode,
>)
    ensures
        match r {
            Some(m) => first_child_kind(cs@, 0, k@) == Some(*m),
            None => first_child_kind(cs@, 0, k@) is None,
        },
{
    let mut i: usize = 0;
    while i < cs.len()
        invariant
            i <= cs@.len(),
            first_child_kind(cs@, 0, k@) == first_child_kind(cs@, i as int, k@),
        decreases cs.len() - i,
    {
        proof {
            assert(cs@[i as int] == cs[i as int]);
        }
        let kv = text::chars_of(cs[i].kind.as_str());
        if text::chars_eq(&kv, k) {
            return Some(&cs[i]);
        }
        i += 1;
    }
    None
}

/// The guard-clause preconditions lifted from a subtree, in document order:
/// every `if` statement with a parenthesized condition whose block exits
/// early with a `throw` or `return` contributes one precondition.
pub open spec fn guards_of(n: SyntaxNode) -> Seq<Seq<char>>
    decreases n, 1int,
{
    let own: Seq<Seq<char>> = if n.kind@ == "if_statement"@ {
        match first_child_kind(n.children@, 0, "parenthesized_expression"@) {
            Some(c) => match first_child_kind(n.children@, 0, "statement_block"@) {
                Some(b) => if text::contains_sub(b.text@, "throw"@) || text::contains_sub(
                    b.text@,
                    "return"@,
                ) {
                    seq![precond_text(c.text@)]
                } else {
                    Seq::empty()
                },
                None => Seq::empty(),
            },
            None => Seq::empty(),
        }
    } else {
        Seq::empty()
    };
    own + guards_cs(n.children@, 0)
}

/// The guard clauses of a child list from `i` on.
pub open spec fn guards_cs(cs: Seq<SyntaxNode>, i: int) -> Seq<Seq<char>>
    decreases cs, (if i < cs.len() { cs.len() - i } else { 0int }),
{
    if i < 0 || i >= cs.len() {
        Seq::empty()
    } else {
        guards_of(cs[i]) + guards_cs(cs, i + 1)
    }
}

fn guards_of_exec(n: &SyntaxNode) -> (r: Vec<String>)
    ensures
        r.deep_view() == guards_of(*n),
    decreases *n, 1int,
{
    let mut out: Vec<String> = Vec::new();
    let kv = text::chars_of(n.kind.as_str());
    if text::chars_eq(&kv, &text::chars_of("if_statement")) {
        match first_child_kind_exec(&n.children, &text::chars_of("parenthesized_expression")) {
            Some(c) => {
                match first_child_kind_exec(&n.children, &text::chars_of("statement_block")) {
                    Some(b) => {
                        let bt = text::chars_of(b.text.as_str());
                        if text::contains_sub_exec(&bt, &text::chars_of("throw"))
                            || text::contains_sub_exec(&bt, &text::chars_of("return")) {
                            let cv = text::chars_of(c.text.as_str());
                            let pt = paren_trim_exec(&cv);
                            let tt = text::trim(&pt);
                            let mut p = text::chars_of("must avoid: ");
                            text::append_vec(&mut p, &tt);
                            out.push(text::string_from_chars(&p));
                        }
                    },
                    None => {},
                }
            },
            None => {},
        }
    }
    proof {
        let own: Seq<Seq<char>> = if n.kind@ == "if_statement"@ {
            match first_child_kind(n.children@, 0, "parenthesized_expression"@) {
                Some(c) => match first_child_kind(n.children@, 0, "statement_block"@) {
                    Some(b) => if text::contains_sub(b.text@, "throw"@) || text::contains_sub(
                        b.text@,
                        "return"@,
                    ) {
                        seq![precond_text(c.text@)]
                    } else {
                        Seq::empty()
                    },
                    None => Seq::empty(),
                },
                None => Seq::empty(),
            }
        } else {
            Seq::empty()
        };
        assert(out.deep_view() =~~= own);
    }
    let ghost own = out.deep_view();
    let mut i: usize = 0;
    proof {
        assert(own + guards_cs(n.children@, 0) =~= guards_of(*n));
    }
    while i < n.children.len()
        invariant
            n.children@.len() == n.children.len(),
            i <= n.children@.len(),
            out.deep_view() + guards_cs(n.children@, i as int) == guards_of(*n),
        decreases n.children.len() - i, *n, 0int,
    {
        proof {
            assert(n.children@[i as int] == n.children[i as int]);
            assert(decreases_to!(*n => n.children));
            assert(decreases_to!(n.children => n.children@));
            assert(decreases_to!(n.children@ => n.children@[i as int]));
        }
        let child_guards = guards_of_exec(&n.children[i]);
        let ghost before = out.deep_view();
        append_strings(&mut out, child_guards);
        proof {
            assert(guards_cs(n.children@, i as int) =~= guards_of(n.children@[i as int])
                + guards_cs(n.children@, i + 1));
            assert(out.deep_view() + guards_cs(n.children@, i + 1) =~= before + guards_cs(
                n.children@,
                i as int,
            ));
        }
        i += 1;
    }
    proof {
        assert(guards_cs(n.children@, n.children@.len() as int) =~= Seq::<Seq<char>>::empty());
        assert(out.deep_view() + Seq::<Seq<char>>::empty() =~= out.deep_view());
    }
    out
}

fn append_strings(dst: &mut Vec<String>, src: Vec<String>)
    ensures
        final(dst).deep_view() == old(dst).deep_view() + src.deep_view(),
{
    let mut j: usize = 0;
    let mut src = src;
    let ghost sv = src.deep_view();
    while j < src.len()
        invariant
            sv == src.deep_view(),
            src@.len() == sv.len(),
            j <= sv.len(),
            dst.deep_view() == old(dst).deep_view() + sv.subrange(0, j as int),
        decreases src.len() - j,
    {
        proof {
            assert(src@[j as int]@ == sv[j as int]);
        }
        let s = src[j].clone();
        let ghost before = dst.deep_view();
        dst.push(s);
        proof {
            assert(dst.deep_view() =~= before.push(sv[j as int]));
            assert(old(dst).deep_view() + sv.subrange(0, j + 1) =~= (old(dst).deep_view()
                + sv.subrange(0, j as int)).push(sv[j as int]));
        }
        j += 1;
    }
    proof {
        assert(sv.subrange(0, sv.len() as int) =~= sv);
    }
}


/// What enrichment recovers for a definition.
#[derive(Debug)]
pub struct EnrichmentResult {
    pub signature: Option<String>,
    pub documentation: Option<String>,
    pub preconditions: Vec<String>,
}

/// The enrichment of the deepest definition at `line` in a parsed tree.
pub open spec fn enrichment_of(root: SyntaxNode, line: int) -> Option<
    (Option<Seq<char>>, Option<Seq<char>>, Seq<Seq<char>>),
> {
    match find_def(root, line) {
        Some(t) => Some((signature_of(t.0.text@), t.1, guards_of(t.0))),
        None => None,
    }
}

/// Enrich the definition at `line`: its signature by bracket scanning, its
/// leading documentation, and its guard-clause preconditions.
pub fn enrich_tree(root: &SyntaxNode, start_line: usize) -> (r: Option<EnrichmentResult>)
    ensures
        match r {
            Some(e) => enrichment_of(*root, start_line as int) == Some(
                (e.signature.deep_view(), e.documentation.deep_view(), e.preconditions.deep_view()),
            ),
            None => enrichment_of(*root, start_line as int) is None,
        },
{
    match find_def_exec(root, start_line) {
        Some((node, documentation, _resolved)) => {
            let tv = text::chars_of(node.text.as_str());
            let signature = match signature_of_exec(&tv) {
                Some(sig) => Some(text::string_from_chars(&sig)),
                None => None,
            };
            let preconditions = guards_of_exec(node);
            Some(EnrichmentResult { signature, documentation, preconditions })
        },
        None => None,
    }
}

/// The name resolved at a position: the text of an identifier node, or of
/// the identifier child of a variable declarator.
pub open spec fn resolved_name_of(root: SyntaxNode, line: int, col: int) -> Option<Seq<char>> {
    match node_at(root, line, col) {
        Some(m) => if m.kind@ == "identifier"@ {
            Some(m.text@)
        } else if m.kind@ == "variable_declarator"@ {
            match first_child_kind(m.children@, 0, "identifier"@) {
                Some(c) => Some(c.text@),
                None => Some(m.text@),
            }
        } else {
            None
        },
        None => None,
    }
}

/// Resolve the source name at a position in a parsed tree.
pub fn resolve_name_in_tree(root: &SyntaxNode, line: usize, col: usize) -> (r: Option<String>)
    ensures
        r.deep_view() == resolved_name_of(*root, line as int, col as int),
{
    match node_at_exec(root, line, col) {
        Some(m) => {
            let kv = text::chars_of(m.kind.as_str());
            if text::chars_eq(&kv, &text::chars_of("identifier")) {
                Some(m.text.clone())
            } else if text::chars_eq(&kv, &text::chars_of("variable_declarator")) {
                match first_child_kind_exec(&m.children, &text::chars_of("identifier")) {
                    Some(c) => Some(c.text.clone()),
                    None => Some(m.text.clone()),
                }
            } else {
                None
            }
        },
        None => None,
    }
}

/// A supported source language.
#[derive(Debug, Clone, Copy, PartialEq, Eq, Structural)]
pub enum LanguageKind {
    Rust,
    TypeScript,
    Tsx,
    JavaScript,
}

/// The language a file extension selects.
pub open spec fn language_of_extension(ext: Seq<char>) -> Option<LanguageKind> {
    if ext == "rs"@ {
        Some(LanguageKind::Rust)
    } else if ext == "ts"@ {
        Some(LanguageKind::TypeScript)
    } else if ext == "tsx"@ {
        Some(LanguageKind::Tsx)
    } else if ext == "js"@ {
        Some(LanguageKind::JavaScript)
    } else {
        None
    }
}

/// Dispatch a file extension to a parser language.
pub fn language_for_extension(ext: &str) -> (r: Option<LanguageKind>)
    ensures
        r == language_of_extension(ext@),
{
    let v = text::chars_of(ext);
    if text::chars_eq(&v, &text::chars_of("rs")) {
        Some(LanguageKind::Rust)
    } else if text::chars_eq(&v, &text::chars_of("ts")) {
        Some(LanguageKind::TypeScript)
    } else if text::chars_eq(&v, &text::chars_of("tsx")) {
        Some(LanguageKind::Tsx)
    } else if text::chars_eq(&v, &text::chars_of("js")) {
        Some(LanguageKind::JavaScript)
    } else {
        None
    }
}

/// The extension of a path: the text after the last dot of the last path
/// segment, provided the dot is not the segment's first character.
pub open spec fn extension_of(path: Seq<char>) -> Option<Seq<char>> {
    let name = crate::uri::after_last_slash(path);
    let i = last_dot(name);
    if 0 < i < name.len() {
        Some(name.subrange(i + 1, name.len() as int))
    } else {
        None
    }
}

/// Index of the last dot of `s`, or `-1` when it has none.
pub open spec fn last_dot(s: Seq<char>) -> int
    decreases s.len(),
{
    if s.len() == 0 {
        -1
    } else if s.last() == '.' {
        s.len() - 1
    } else {
        last_dot(s.drop_last())
    }
}

fn extension_of_exec(path: &Vec<char>) -> (r: Option<Vec<char>>)
    ensures
        match r {
            Some(e) => extension_of(path@) == Some(e@),
            None => extension_of(path@) is None,
        },
{
    let name = crate::uri::after_last_slash_exec(path);
    let n = name.len();
    let mut i: usize = n;
    proof {
        assert(name@.subrange(0, n as int) =~= name@);
    }
    while i > 0 && name[i - 1] != '.'
        invariant
            n == name@.len(),
            i <= n,
            last_dot(name@) == last_dot(name@.subrange(0, i as int)),
        decreases i,
    {
        proof {
            let s = name@.subrange(0, i as int);
            assert(s.last() == name@[i - 1]);
            assert(s.drop_last() =~= name@.subrange(0, i - 1));
        }
        i -= 1;
    }
    if i > 1 {
        proof {
            let s = name@.subrange(0, i as int);
            assert(s.last() == name@[i - 1]);
            assert(name@[i - 1] == '.');
            assert(last_dot(name@) == i - 1);
        }
        Some(text::subvec(&name, i, n))
    } else {
        proof {
            if i == 0 {
                assert(name@.subrange(0, 0) =~= Seq::<char>::empty());
                assert(last_dot(name@) == -1);
            } else {
                let s = name@.subrange(0, i as int);
                assert(s.last() == name@[i - 1]);
                assert(name@[i - 1] == '.');
                assert(last_dot(name@) == i - 1);
            }
        }
        None
    }
}

/// The syntax tree the parser yields for a source text, per language. Named,
/// not defined: parsing is a pure function of the language and the text.
pub uninterp spec fn parsed_rust(source: Seq<char>) -> Option<SyntaxNode>;

pub uninterp spec fn parsed_typescript(source: Seq<char>) -> Option<SyntaxNode>;

pub uninterp spec fn parsed_tsx(source: Seq<char>) -> Option<SyntaxNode>;

pub uninterp spec fn parsed_javascript(source: Seq<char>) -> Option<SyntaxNode>;

/// Relies on `tree_sitter::Node`: copies a parse node and its subtree, in
/// document order, into the library's plain syntax-tree type.
#[verifier::external_body]
fn convert_node(node: tree_sitter::Node<'_>, source: &str) -> SyntaxNode {
    let mut children = Vec::new();
    let mut cursor = node.walk();
    for ch in node.children(&mut cursor) {
        children.push(convert_node(ch, source));
    }
    SyntaxNode {
        kind: node.kind().to_string(),
        start_row: node.start_position().row,
        start_col: node.start_position().column,
        end_row: node.end_position().row,
        end_col: node.end_position().column,
        text: source.get(node.start_byte()..node.end_byte()).unwrap_or("").to_string(),
        children,
    }
}

#[verifier::external_type_specification]
#[verifier::external_body]
pub struct ExTsNode<'a>(tree_sitter::Node<'a>);

/// Relies on `tree_sitter::Parser` with `tree_sitter_rust::language`:
/// parsing is deterministic in the source text, and a setup or parse
/// failure yields nothing.
#[verifier::external_body]
fn parse_rust(source: &str) -> (r: Option<SyntaxNode>)
    ensures
        r == parsed_rust(source@),
{
    let mut parser = tree_sitter::Parser::new();
    if parser.set_language(tree_sitter_rust::language()).is_err() {
        return None;
    }
    parser.parse(source, None).map(|t| convert_node(t.root_node(), source))
}

/// Relies on `tree_sitter::Parser` with
/// `tree_sitter_typescript::language_typescript`: parsing is deterministic
/// in the source text.
#[verifier::external_body]
fn parse_typescript(source: &str) -> (r: Option<SyntaxNode>)
    ensures
        r == parsed_typescript(source@),
{
    let mut parser = tree_sitter::Parser::new();
    if parser.set_language(tree_sitter_typescript::language_typescript()).is_err() {
        return None;
    }
    parser.parse(source, None).map(|t| convert_node(t.root_node(), source))
}

/// Relies on `tree_sitter::Parser` with
/// `tree_sitter_typescript::language_tsx`: parsing is deterministic in the
/// source text.
#[verifier::external_body]
fn parse_tsx(source: &str) -> (r: Option<SyntaxNode>)
    ensures
        r == parsed_tsx(source@),
{
    let mut parser = tree_sitter::Parser::new();
    if parser.set_language(tree_sitter_typescript::language_tsx()).is_err() {
        return None;
    }
    parser.parse(source, None).map(|t| convert_node(t.root_node(), source))
}

/// Relies on `tree_sitter::Parser` with `tree_sitter_javascript::language`:
/// parsing is deterministic in the source text.
#[verifier::external_body]
fn parse_javascript(source: &str) -> (r: Option<SyntaxNode>)
    ensures
        r == parsed_javascript(source@),
{
    let mut parser = tree_sitter::Parser::new();
    if parser.set_language(tree_sitter_javascript::language()).is_err() {
        return None;
    }
    parser.parse(source, None).map(|t| convert_node(t.root_node(), source))
}

/// The parse result for a language and source text.
pub open spec fn parsed_for(k: LanguageKind, source: Seq<char>) -> Option<SyntaxNode> {
    match k {
        LanguageKind::Rust => parsed_rust(source),
        LanguageKind::TypeScript => parsed_typescript(source),
        LanguageKind::Tsx => parsed_tsx(source),
        LanguageKind::JavaScript => parsed_javascript(source),
    }
}

fn parse_for(k: LanguageKind, source: &str) -> (r: Option<SyntaxNode>)
    ensures
        r == parsed_for(k, source@),
{
    match k {
        LanguageKind::Rust => parse_rust(source),
        LanguageKind::TypeScript => parse_typescript(source),
        LanguageKind::Tsx => parse_tsx(source),
        LanguageKind::JavaScript => parse_javascript(source),
    }
}

/// The syntax tree a file's extension and source text parse to: nothing for
/// an unsupported extension or a failed parse.
pub open spec fn tree_for_file(path: Seq<char>, source: Seq<char>) -> Option<SyntaxNode> {
    match extension_of(path) {
        Some(ext) => match language_of_extension(ext) {
            Some(k) => parsed_for(k, source),
            None => None,
        },
        None => None,
    }
}

/// The enrichment engine: parses source text per file extension and
/// extracts names, signatures, documentation and preconditions.
pub struct TreeSitterEnricher;

impl TreeSitterEnricher {
    /// An enrichment engine over the built-in grammars.
    pub fn new() -> (r: Self) {
        TreeSitterEnricher
    }

    /// Parse a file's source text by its extension.
    pub fn parse_source(&self, file_path: &str, source: &str) -> (r: Option<SyntaxNode>)
        ensures
            r == tree_for_file(file_path@, source@),
    {
        let pv = text::chars_of(file_path);
        match extension_of_exec(&pv) {
            Some(ext) => {
                let ext_s = text::string_from_chars(&ext);
                match language_for_extension(ext_s.as_str()) {
                    Some(k) => parse_for(k, source),
                    None => None,
                }
            },
            None => None,
        }
    }

    /// Resolve a variable name from source text at a position; fails softly
    /// on unsupported extensions, parse failures, and positions that hold no
    /// identifier.
    pub fn resolve_variable_name(&self, file_path: &str, source: &str, line: usize, col: usize)
        -> (r: Option<String>)
        ensures
            r.deep_view() == match tree_for_file(file_path@, source@) {
                Some(root) => resolved_name_of(root, line as int, col as int),
                None => None,
            },
    {
        match self.parse_source(file_path, source) {
            Some(root) => resolve_name_in_tree(&root, line, col),
            None => None,
        }
    }

    /// Enrich the definition at a line of a file's source text; fails softly
    /// when the file cannot be parsed or no definition encloses the line.
    pub fn enrich(&self, file_path: &str, source: &str, start_line: usize) -> (r: Option<
        EnrichmentResult,
    >)
        ensures
            match tree_for_file(file_path@, source@) {
                Some(root) => match r {
                    Some(e) => enrichment_of(root, start_line as int) == Some(
                        (
                            e.signature.deep_view(),
                            e.documentation.deep_view(),
                            e.preconditions.deep_view(),
                        ),
                    ),
                    None => enrichment_of(root, start_line as int) is None,
                },
                None => r is None,
            },
    {
        match self.parse_source(file_path, source) {
            Some(root) => enrich_tree(&root, start_line),
            None => None,
        }
    }
}

} // verus!
