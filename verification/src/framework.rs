//! Framework-noise filter: removes dependency-injection-only constructors and
//! strips decorator metadata from node signatures and documentation.

use vstd::prelude::*;

use crate::text;

verus! {

/// Parenthesis balance of `s`: opening minus closing parentheses.
pub open spec fn paren_balance(s: Seq<char>) -> int
    decreases s.len(),
{
    if s.len() == 0 {
        0
    } else {
        paren_balance(s.drop_last()) + if s.last() == '(' {
            1int
        } else if s.last() == ')' {
            -1int
        } else {
            0int
        }
    }
}

pub proof fn lemma_paren_balance_bound(s: Seq<char>)
    ensures
        -s.len() <= paren_balance(s) <= s.len(),
    decreases s.len(),
{
    if s.len() > 0 {
        lemma_paren_balance_bound(s.drop_last());
    }
}

pub(crate) fn paren_balance_exec(v: &Vec<char>) -> (r: i64)
    requires
        v@.len() <= i64::MAX,
    ensures
        r as int == paren_balance(v@),
{
    let mut opens: usize = 0;
    let mut closes: usize = 0;
    let mut i: usize = 0;
    proof {
        assert(v@.subrange(0, 0) =~= Seq::<char>::empty());
    }
    while i < v.len()
        invariant
            v@.len() <= i64::MAX,
            i <= v@.len(),
            opens <= i,
            closes <= i,
            opens as int - closes as int == paren_balance(v@.subrange(0, i as int)),
        decreases v.len() - i,
    {
        proof {
            assert(v@.subrange(0, i + 1).drop_last() =~= v@.subrange(0, i as int));
            assert(v@.subrange(0, i + 1).last() == v@[i as int]);
        }
        let c = v[i];
        if c == '(' {
            opens += 1;
        } else if c == ')' {
            closes += 1;
        }
        i += 1;
    }
    proof {
        assert(v@.subrange(0, v@.len() as int) =~= v@);
    }
    (opens as i64) - (closes as i64)
}

/// State-machine scan of a line for decorator prefixes, from position `i`
/// with the given decorator state: the content after the decorators, trimmed,
/// or `None` when the line holds only decorators.
pub open spec fn after_decorator_from(
    s: Seq<char>,
    i: int,
    in_dec: bool,
    depth: int,
    last_end: int,
) -> Option<Seq<char>>
    decreases s.len() - i when 0 <= i <= s.len()
{
    if i >= s.len() {
        if in_dec {
            None
        } else if last_end == 0 || last_end >= s.len() {
            None
        } else {
            let rem = text::trimmed(s.subrange(last_end, s.len() as int));
            if rem.len() == 0 {
                None
            } else {
                Some(rem)
            }
        }
    } else {
        let c = s[i];
        if c == '@' {
            after_decorator_from(s, i + 1, true, 0, last_end)
        } else if c == '(' && in_dec {
            after_decorator_from(s, i + 1, in_dec, depth + 1, last_end)
        } else if c == ')' && in_dec {
            if depth == 1 {
                after_decorator_from(s, i + 1, false, 0, i + 1)
            } else {
                after_decorator_from(s, i + 1, in_dec, depth - 1, last_end)
            }
        } else if (c == ' ' || c == '\t') && in_dec && depth == 0 {
            after_decorator_from(s, i + 1, false, 0, i + 1)
        } else if !in_dec && !text::is_space(c) {
            Some(text::trimmed(s.subrange(i, s.len() as int)))
        } else {
            after_decorator_from(s, i + 1, in_dec, depth, last_end)
        }
    }
}

/// What the decorator scan of a whole line yields.
pub open spec fn after_decorator(s: Seq<char>) -> Option<Seq<char>> {
    after_decorator_from(s, 0, false, 0, 0)
}

pub(crate) fn after_decorator_exec(v: &Vec<char>) -> (r: Option<Vec<char>>)
    ensures
        match r {
            Some(rem) => after_decorator(v@) == Some(rem@),
            None => after_decorator(v@) is None,
        },
{
    let n = v.len();
    let mut i: usize = 0;
    let mut in_dec = false;
    let mut opens: usize = 0;
    let mut closes: usize = 0;
    let mut last_end: usize = 0;
    while i < n
        invariant
            n == v@.len(),
            i <= n,
            opens <= i,
            closes <= i,
            last_end <= i,
            after_decorator(v@) == after_decorator_from(
                v@,
                i as int,
                in_dec,
                opens as int - closes as int,
                last_end as int,
            ),
        decreases n - i,
    {
        let c = v[i];
        if c == '@' {
            in_dec = true;
            opens = 0;
            closes = 0;
        } else if c == '(' && in_dec {
            opens += 1;
        } else if c == ')' && in_dec {
            if opens == closes + 1 {
                in_dec = false;
                opens = 0;
                closes = 0;
                last_end = i + 1;
            } else {
                closes += 1;
            }
        } else if (c == ' ' || c == '\t') && in_dec && opens == closes {
            in_dec = false;
            opens = 0;
            closes = 0;
            last_end = i + 1;
        } else if !in_dec && !text::space_exec(c) {
            let tail = text::subvec(v, i, n);
            let rem = text::trim(&tail);
            return Some(rem);
        }
        i += 1;
    }
    if in_dec {
        return None;
    }
    if last_end == 0 || last_end >= n {
        return None;
    }
    let tail = text::subvec(v, last_end, n);
    let rem = text::trim(&tail);
    if rem.len() == 0 {
        None
    } else {
        Some(rem)
    }
}

/// One trailing carriage return removed.
pub open spec fn strip_cr(s: Seq<char>) -> Seq<char> {
    if s.len() > 0 && s.last() == '\r' {
        s.drop_last()
    } else {
        s
    }
}

/// Index of the first newline in `s`, or its length when it has none.
pub open spec fn first_nl(s: Seq<char>) -> int
    decreases s.len(),
{
    if s.len() == 0 {
        0
    } else if s[0] == '\n' {
        0
    } else {
        1 + first_nl(s.drop_first())
    }
}

pub proof fn lemma_first_nl(s: Seq<char>)
    ensures
        0 <= first_nl(s) <= s.len(),
        forall|j: int| 0 <= j < first_nl(s) ==> s[j] != '\n',
        first_nl(s) < s.len() ==> s[first_nl(s)] == '\n',
    decreases s.len(),
{
    if s.len() > 0 && s[0] != '\n' {
        lemma_first_nl(s.drop_first());
        assert forall|j: int| 0 <= j < first_nl(s) implies s[j] != '\n' by {
            if j > 0 {
                assert(s.drop_first()[j - 1] != '\n');
            }
        }
    }
}

proof fn lemma_first_nl_determined(s: Seq<char>, k: int)
    requires
        0 <= k <= s.len(),
        forall|j: int| 0 <= j < k ==> s[j] != '\n',
        k < s.len() ==> s[k] == '\n',
    ensures
        first_nl(s) == k,
    decreases s.len(),
{
    if s.len() > 0 && s[0] != '\n' {
        assert(k > 0);
        lemma_first_nl_determined(s.drop_first(), k - 1);
    }
}

/// The lines of `s`: split at newlines, one trailing carriage return removed
/// from each line, no final empty line for a trailing newline.
pub open spec fn lines_of(s: Seq<char>) -> Seq<Seq<char>>
    decreases s.len(),
{
    if s.len() == 0 {
        Seq::empty()
    } else {
        let i = first_nl(s);
        if 0 <= i < s.len() {
            seq![strip_cr(s.subrange(0, i))] + lines_of(s.subrange(i + 1, s.len() as int))
        } else {
            seq![strip_cr(s)]
        }
    }
}

/// Every line is at most as long as the text it came from.
pub proof fn lemma_lines_len(s: Seq<char>)
    ensures
        forall|k: int| 0 <= k < lines_of(s).len() ==> (#[trigger] lines_of(s)[k]).len() <= s.len(),
    decreases s.len(),
{
    if s.len() > 0 {
        let i = first_nl(s);
        lemma_first_nl(s);
        if 0 <= i < s.len() {
            let tail = s.subrange(i + 1, s.len() as int);
            lemma_lines_len(tail);
            assert forall|k: int| 0 <= k < lines_of(s).len() implies (#[trigger] lines_of(
                s,
            )[k]).len() <= s.len() by {
                if k > 0 {
                    assert(lines_of(s)[k] == lines_of(tail)[k - 1]);
                    assert(lines_of(tail)[k - 1].len() <= tail.len());
                }
            }
        }
    }
}

fn strip_cr_exec(v: Vec<char>) -> (r: Vec<char>)
    ensures
        r@ == strip_cr(v@),
{
    let mut v = v;
    let ghost v0 = v@;
    if v.len() > 0 && v[v.len() - 1] == '\r' {
        v.pop();
        proof {
            assert(v@ =~= strip_cr(v0));
        }
    }
    v
}

fn split_lines(v: &Vec<char>) -> (r: Vec<Vec<char>>)
    ensures
        r.deep_view() == lines_of(v@),
{
    let n = v.len();
    let mut out: Vec<Vec<char>> = Vec::new();
    let mut pos: usize = 0;
    proof {
        assert(v@.subrange(0, n as int) =~= v@);
        assert(out.deep_view() =~= Seq::<Seq<char>>::empty());
        assert(Seq::<Seq<char>>::empty() + lines_of(v@) =~= lines_of(v@));
    }
    while pos < n
        invariant
            n == v@.len(),
            pos <= n,
            out.deep_view() + lines_of(v@.subrange(pos as int, n as int)) == lines_of(v@),
        decreases n - pos,
    {
        let ghost suffix = v@.subrange(pos as int, n as int);
        // find the next newline
        let mut k: usize = pos;
        while k < n && v[k] != '\n'
            invariant
                pos <= k <= n,
                n == v@.len(),
                forall|j: int| pos <= j < k ==> v@[j] != '\n',
            decreases n - k,
        {
            k += 1;
        }
        proof {
            assert forall|j: int| 0 <= j < k - pos implies suffix[j] != '\n' by {
                assert(v@[pos + j] != '\n');
            }
            if k < n {
                assert(suffix[k - pos] == v@[k as int]);
            }
            lemma_first_nl_determined(suffix, k - pos);
        }
        let line = text::subvec(v, pos, k);
        let stripped = strip_cr_exec(line);
        let ghost before = out.deep_view();
        out.push(stripped);
        proof {
            assert(out.deep_view() =~~= before.push(stripped@));
            assert(suffix.subrange(0, k - pos) =~= v@.subrange(pos as int, k as int));
        }
        if k == n {
            pos = n;
            proof {
                assert(strip_cr(suffix) == stripped@);
                assert(lines_of(suffix) =~= seq![stripped@]);
                assert(before + lines_of(suffix) =~= before.push(stripped@));
                assert(v@.subrange(n as int, n as int) =~= Seq::<char>::empty());
                assert(out.deep_view() + lines_of(v@.subrange(pos as int, n as int))
                    =~= out.deep_view());
            }
        } else {
            proof {
                assert(suffix.subrange(k - pos + 1, suffix.len() as int) =~= v@.subrange(
                    k + 1,
                    n as int,
                ));
                assert(lines_of(suffix) =~= seq![stripped@] + lines_of(
                    v@.subrange(k + 1, n as int),
                ));
                assert(before + lines_of(suffix) =~= before.push(stripped@) + lines_of(
                    v@.subrange(k + 1, n as int),
                ));
            }
            pos = k + 1;
        }
    }
    proof {
        assert(v@.subrange(n as int, n as int) =~= Seq::<char>::empty());
        assert(out.deep_view() + lines_of(v@.subrange(pos as int, n as int)) =~= out.deep_view());
    }
    out
}



/// The lines kept by the decorator-stripping pass, from line `i` onward in
/// the given multi-line decorator state.
pub open spec fn strip_lines(lines: Seq<Seq<char>>, i: int, in_dec: bool, depth: int) -> Seq<
    Seq<char>,
>
    decreases lines.len() - i when 0 <= i <= lines.len()
{
    if i >= lines.len() {
        Seq::empty()
    } else {
        let line = lines[i];
        let t = text::trimmed(line);
        if t.len() > 0 && t[0] == '@' {
            let d = paren_balance(t);
            if d == 0 {
                match after_decorator(t) {
                    Some(rem) => if rem.len() > 0 {
                        seq![rem] + strip_lines(lines, i + 1, false, 0)
                    } else {
                        strip_lines(lines, i + 1, false, 0)
                    },
                    None => strip_lines(lines, i + 1, false, 0),
                }
            } else {
                strip_lines(lines, i + 1, true, d)
            }
        } else if in_dec {
            if depth + paren_balance(t) == 0 {
                strip_lines(lines, i + 1, false, 0)
            } else {
                strip_lines(lines, i + 1, true, depth + paren_balance(t))
            }
        } else {
            seq![line] + strip_lines(lines, i + 1, in_dec, depth)
        }
    }
}

/// Lines joined with newlines.
pub open spec fn join_nl(ls: Seq<Seq<char>>) -> Seq<char>
    decreases ls.len(),
{
    if ls.len() == 0 {
        Seq::empty()
    } else if ls.len() == 1 {
        ls[0]
    } else {
        ls[0] + seq!['\n'] + join_nl(ls.drop_first())
    }
}

pub(crate) proof fn lemma_join_push(ls: Seq<Seq<char>>, x: Seq<char>)
    ensures
        join_nl(ls.push(x)) == if ls.len() == 0 {
            x
        } else {
            join_nl(ls) + seq!['\n'] + x
        },
    decreases ls.len(),
{
    if ls.len() == 0 {
        assert(ls.push(x)[0] == x);
    } else {
        assert(ls.push(x).drop_first() =~= ls.drop_first().push(x));
        lemma_join_push(ls.drop_first(), x);
        if ls.len() == 1 {
            assert(ls.push(x)[0] == ls[0]);
            assert(join_nl(ls.push(x)) == ls[0] + seq!['\n'] + x);
        } else {
            assert(ls.push(x)[0] == ls[0]);
            assert(join_nl(ls) + seq!['\n'] + x =~= ls[0] + seq!['\n'] + (join_nl(ls.drop_first())
                + seq!['\n'] + x));
        }
    }
}

/// The decorator-stripped form of a signature or documentation text.
pub open spec fn stripped_decorators(s: Seq<char>) -> Seq<char> {
    text::trimmed(join_nl(strip_lines(lines_of(s), 0, false, 0)))
}

/// Remove decorator prefixes from a signature text.
pub(crate) fn strip_decorators_impl(signature: &str) -> (r: String)
    requires
        signature@.len() <= i64::MAX,
    ensures
        r@ == stripped_decorators(signature@),
{
    let v = text::chars_of(signature);
    let lines = split_lines(&v);
    let ghost lv = lines.deep_view();
    let mut kept: Vec<Vec<char>> = Vec::new();
    let mut in_dec = false;
    let mut depth: i128 = 0;
    let mut i: usize = 0;
    proof {
        lemma_lines_len(v@);
    }
    while i < lines.len()
        invariant
            lines.deep_view() == lv,
            lines@.len() == lv.len(),
            v@.len() <= i64::MAX,
            forall|k: int| 0 <= k < lv.len() ==> (#[trigger] lv[k]).len() <= v@.len(),
            i <= lv.len(),
            -(i as int) * (i64::MAX as int) <= depth as int <= (i as int) * (i64::MAX as int),
            strip_lines(lv, 0, false, 0) == kept.deep_view() + strip_lines(
                lv,
                i as int,
                in_dec,
                depth as int,
            ),
        decreases lines.len() - i,
    {
        let line = &lines[i];
        proof {
            assert(line@ == lv[i as int]);
        }
        let t = text::trim(line);
        proof {
            assert(text::trimmed(line@).len() <= line@.len()) by {
                text::lemma_trimmed_len(line@);
            }
        }
        let ghost kept0 = kept.deep_view();
        if t.len() > 0 && t[0] == '@' {
            let d = paren_balance_exec(&t);
            if d == 0 {
                match after_decorator_exec(&t) {
                    Some(rem) => {
                        if rem.len() > 0 {
                            kept.push(rem);
                            proof {
                                assert(kept.deep_view() =~~= kept0.push(
                                    after_decorator(t@).unwrap(),
                                ));
                                assert(kept0 + (seq![after_decorator(t@).unwrap()] + strip_lines(
                                    lv,
                                    i + 1,
                                    false,
                                    0,
                                )) =~= kept.deep_view() + strip_lines(lv, i + 1, false, 0));
                            }
                        }
                    },
                    None => {},
                }
                in_dec = false;
                depth = 0;
            } else {
                in_dec = true;
                depth = d as i128;
            }
        } else if in_dec {
            let d = paren_balance_exec(&t);
            proof {
                lemma_paren_balance_bound(t@);
            }
            let nd: i128 = depth + (d as i128);
            if nd == 0 {
                in_dec = false;
                depth = 0;
            } else {
                in_dec = true;
                depth = nd;
            }
        } else {
            let keep_line = text::subvec(line, 0, line.len());
            kept.push(keep_line);
            proof {
                assert(keep_line@ =~= lv[i as int]);
                assert(kept.deep_view() =~~= kept0.push(lv[i as int]));
                assert(kept0 + (seq![lv[i as int]] + strip_lines(lv, i + 1, in_dec, depth as int))
                    =~= kept.deep_view() + strip_lines(lv, i + 1, in_dec, depth as int));
            }
        }
        proof {
            let m = i64::MAX as int;
            lemma_paren_balance_bound(text::trimmed(lv[i as int]));
            assert(((i + 1) as int) * m == (i as int) * m + m) by (nonlinear_arith);
            assert((i as int) * m >= 0) by (nonlinear_arith)
                requires
                    i >= 0,
                    m > 0,
            ;
        }
        i += 1;
    }
    proof {
        assert(strip_lines(lv, lv.len() as int, in_dec, depth as int) =~= Seq::<Seq<char>>::empty());
        assert(kept.deep_view() + Seq::<Seq<char>>::empty() =~= kept.deep_view());
    }
    // join the kept lines with newlines
    let mut joined: Vec<char> = Vec::new();
    let mut j: usize = 0;
    while j < kept.len()
        invariant
            j <= kept@.len(),
            joined@ == join_nl(kept.deep_view().subrange(0, j as int)),
        decreases kept.len() - j,
    {
        proof {
            assert(kept.deep_view().subrange(0, j + 1) =~= kept.deep_view().subrange(
                0,
                j as int,
            ).push(kept.deep_view()[j as int]));
            lemma_join_push(kept.deep_view().subrange(0, j as int), kept.deep_view()[j as int]);
        }
        if j > 0 {
            joined.push('\n');
        }
        text::append_vec(&mut joined, &kept[j]);
        proof {
            assert(kept@[j as int].deep_view() == kept.deep_view()[j as int]);
            assert(kept@[j as int]@ =~= kept.deep_view()[j as int]);
        }
        j += 1;
    }
    proof {
        assert(kept.deep_view().subrange(0, kept@.len() as int) =~= kept.deep_view());
    }
    let trimmed_out = text::trim(&joined);
    text::string_from_chars(&trimmed_out)
}


/// At `q` in `s` stands at least one whitespace character, then a word
/// character: the `\s+\w` tail a parameter keyword must be followed by.
pub open spec fn keyword_tail_ok(s: Seq<char>, q: int) -> bool {
    &&& 0 <= q <= s.len()
    &&& {
        let sp = text::leading_spaces(s.subrange(q, s.len() as int));
        &&& sp > 0
        &&& q + sp < s.len()
        &&& text::is_word(s[q + sp])
    }
}

/// An access-modifier keyword stands at `k`, followed by whitespace and a
/// word character.
pub open spec fn keyword_with_tail(s: Seq<char>, k: int) -> bool {
    ||| (text::matches_at(s, k, "private"@) && keyword_tail_ok(s, k + 7))
    ||| (text::matches_at(s, k, "public"@) && keyword_tail_ok(s, k + 6))
    ||| (text::matches_at(s, k, "protected"@) && keyword_tail_ok(s, k + 9))
    ||| (text::matches_at(s, k, "readonly"@) && keyword_tail_ok(s, k + 8))
}

/// Inside the parameter list opened at `p`, before any closing parenthesis,
/// an access-modifier keyword starts at a word boundary.
pub open spec fn di_param_match(s: Seq<char>, p: int) -> bool {
    exists|k: int|
        {
            &&& p < k < s.len()
            &&& forall|t: int| p < t < k ==> s[t] != ')'
            &&& !text::is_word(s[k - 1])
            &&& #[trigger] keyword_with_tail(s, k)
        }
}

/// `constructor`, optional whitespace, `(`, then a dependency-injection
/// parameter, starting at `c`.
pub open spec fn di_match_at(s: Seq<char>, c: int) -> bool {
    &&& text::matches_at(s, c, "constructor"@)
    &&& {
        let p = c + 11 + text::leading_spaces(s.subrange(c + 11, s.len() as int));
        &&& p < s.len()
        &&& s[p] == '('
        &&& di_param_match(s, p)
    }
}

/// The dependency-injection constructor shape, anywhere in the signature.
pub open spec fn di_signature_shape(s: Seq<char>) -> bool {
    exists|c: int| #[trigger] di_match_at(s, c)
}

/// A signature that carries a body with control-flow markers.
pub open spec fn complex_logic(s: Seq<char>) -> bool {
    &&& text::contains_char(s, '{')
    &&& {
        ||| text::contains_sub(s, "if "@)
        ||| text::contains_sub(s, "for "@)
        ||| text::contains_sub(s, "while "@)
        ||| text::contains_sub(s, "switch "@)
        ||| text::contains_sub(s, "return "@)
        ||| text::contains_sub(s, "throw "@)
        ||| text::contains_sub(s, "await "@)
        ||| text::contains_sub(s, "=>"@)
    }
}

/// A node is a dependency-injection-only constructor: named `constructor`,
/// with a signature of the DI shape and no complex-logic markers.
pub open spec fn di_only_constructor_spec(n: crate::model::NodeV) -> bool {
    &&& n.name == "constructor"@
    &&& match n.signature {
        Some(s) => di_signature_shape(s) && !complex_logic(s),
        None => false,
    }
}

fn keyword_tail_ok_exec(v: &Vec<char>, q: usize) -> (b: bool)
    requires
        q <= v@.len(),
    ensures
        b == keyword_tail_ok(v@, q as int),
{
    let m = text::scan_spaces(v, q);
    proof {
        let rest = v@.subrange(q as int, v@.len() as int);
        assert forall|j: int| 0 <= j < m - q implies text::is_space(rest[j]) by {
            assert(text::is_space(v@[q + j]));
        }
        if (m as int) < v@.len() {
            assert(rest[m - q] == v@[m as int]);
        }
        text::lemma_spaces_prefix_count(rest, m - q);
    }
    m > q && m < v.len() && text::word_exec(v[m])
}

fn keyword_with_tail_exec(v: &Vec<char>, k: usize, kws: &DiKeywords) -> (b: bool)
    requires
        kws.wf(),
        k <= v@.len(),
    ensures
        b == keyword_with_tail(v@, k as int),
{
    let n = v.len();
    proof {
        reveal_strlit("private");
        reveal_strlit("public");
        reveal_strlit("protected");
        reveal_strlit("readonly");
    }
    if text::check_at(v, k, &kws.private_kw) && keyword_tail_ok_exec(v, k + 7) {
        return true;
    }
    if text::check_at(v, k, &kws.public_kw) && keyword_tail_ok_exec(v, k + 6) {
        return true;
    }
    if text::check_at(v, k, &kws.protected_kw) && keyword_tail_ok_exec(v, k + 9) {
        return true;
    }
    if text::check_at(v, k, &kws.readonly_kw) && keyword_tail_ok_exec(v, k + 8) {
        return true;
    }
    false
}

struct DiKeywords {
    ctor: Vec<char>,
    private_kw: Vec<char>,
    public_kw: Vec<char>,
    protected_kw: Vec<char>,
    readonly_kw: Vec<char>,
}

impl DiKeywords {
    spec fn wf(&self) -> bool {
        &&& self.ctor@ == "constructor"@
        &&& self.private_kw@ == "private"@
        &&& self.public_kw@ == "public"@
        &&& self.protected_kw@ == "protected"@
        &&& self.readonly_kw@ == "readonly"@
    }

    fn new() -> (r: Self)
        ensures
            r.wf(),
    {
        DiKeywords {
            ctor: text::chars_of("constructor"),
            private_kw: text::chars_of("private"),
            public_kw: text::chars_of("public"),
            protected_kw: text::chars_of("protected"),
            readonly_kw: text::chars_of("readonly"),
        }
    }
}

/// Whether the DI parameter shape holds for the list opened at `p`.
fn di_param_match_exec(v: &Vec<char>, p: usize, kws: &DiKeywords) -> (b: bool)
    requires
        kws.wf(),
        p < v@.len(),
        v@[p as int] == '(',
    ensures
        b == di_param_match(v@, p as int),
{
    let n = v.len();
    let mut k: usize = p + 1;
    while k < v.len() && v[k - 1] != ')'
        invariant
            kws.wf(),
            p < k <= v@.len(),
            forall|t: int| p < t < k - 1 ==> v@[t] != ')',
            forall|kk: int|
                p < kk < k ==> !(!text::is_word(v@[kk - 1]) && #[trigger] keyword_with_tail(
                    v@,
                    kk,
                )),
        decreases v.len() - k,
    {
        let boundary = !text::word_exec(v[k - 1]);
        if boundary && keyword_with_tail_exec(v, k, kws) {
            proof {
                assert(di_param_match(v@, p as int));
            }
            return true;
        }
        k += 1;
    }
    proof {
        assert forall|kk: int|
            {
                &&& p < kk < v@.len()
                &&& forall|t: int| p < t < kk ==> v@[t] != ')'
                &&& !text::is_word(v@[kk - 1])
                &&& #[trigger] keyword_with_tail(v@, kk)
            } implies false by {
            if kk >= k {
                assert(k < v@.len());
                assert(v@[k - 1] == ')');
                assert(k - 1 > p);
                assert(v@[k - 1] != ')');
            }
        }
    }
    false
}

/// Whether the DI constructor shape starts at `c`.
fn di_match_at_exec(v: &Vec<char>, c: usize, kws: &DiKeywords) -> (b: bool)
    requires
        kws.wf(),
        c <= v@.len(),
    ensures
        b == di_match_at(v@, c as int),
{
    proof {
        reveal_strlit("constructor");
    }
    if !text::check_at(v, c, &kws.ctor) {
        return false;
    }
    let total = v.len();
    proof {
        assert(c + 11 <= total);
    }
    let p = text::scan_spaces(v, c + 11);
    proof {
        let rest = v@.subrange(c + 11, v@.len() as int);
        assert forall|j: int| 0 <= j < p - c - 11 implies text::is_space(rest[j]) by {
            assert(text::is_space(v@[c + 11 + j]));
        }
        if (p as int) < v@.len() {
            assert(rest[p - c - 11] == v@[p as int]);
        }
        text::lemma_spaces_prefix_count(rest, p - c - 11);
    }
    if p < total && v[p] == '(' {
        di_param_match_exec(v, p, kws)
    } else {
        false
    }
}

fn di_signature_shape_exec(v: &Vec<char>, kws: &DiKeywords) -> (b: bool)
    requires
        kws.wf(),
    ensures
        b == di_signature_shape(v@),
{
    let mut c: usize = 0;
    while c < v.len()
        invariant
            kws.wf(),
            forall|cc: int| 0 <= cc < c ==> !#[trigger] di_match_at(v@, cc),
        decreases v.len() - c,
    {
        if di_match_at_exec(v, c, kws) {
            return true;
        }
        c += 1;
    }
    proof {
        reveal_strlit("constructor");
        assert forall|cc: int| !#[trigger] di_match_at(v@, cc) by {
            if 0 <= cc < v@.len() {
            } else if cc >= v@.len() {
                assert(cc + 11 > v@.len());
            }
        }
    }
    false
}

fn complex_logic_exec(v: &Vec<char>) -> (b: bool)
    ensures
        b == complex_logic(v@),
{
    if !text::contains_char_exec(v, '{') {
        return false;
    }
    text::contains_sub_exec(v, &text::chars_of("if ")) || text::contains_sub_exec(
        v,
        &text::chars_of("for "),
    ) || text::contains_sub_exec(v, &text::chars_of("while ")) || text::contains_sub_exec(
        v,
        &text::chars_of("switch "),
    ) || text::contains_sub_exec(v, &text::chars_of("return ")) || text::contains_sub_exec(
        v,
        &text::chars_of("throw "),
    ) || text::contains_sub_exec(v, &text::chars_of("await ")) || text::contains_sub_exec(
        v,
        &text::chars_of("=>"),
    )
}


/// A signature or documentation field after decorator simplification: fields
/// that carry an `@` and change under stripping are replaced, others kept.
/// Texts too long for the parenthesis counters are left untouched.
pub open spec fn stripped_field(o: Option<Seq<char>>) -> Option<Seq<char>> {
    match o {
        Some(s) => if s.len() <= i64::MAX && text::contains_char(s, '@') && stripped_decorators(s)
            != s {
            Some(stripped_decorators(s))
        } else {
            Some(s)
        },
        None => None,
    }
}

/// A node after decorator simplification of its signature and documentation.
pub open spec fn simplified_node(n: crate::model::NodeV) -> crate::model::NodeV {
    crate::model::NodeV {
        signature: stripped_field(n.signature),
        documentation: stripped_field(n.documentation),
        ..n
    }
}

/// What the framework filter does to a single node: dependency-injection-only
/// constructors pass through untouched (they are removed wholesale), nodes
/// with a parent and a signature are simplified, the rest are kept.
pub open spec fn fw_mapped(n: crate::model::NodeV) -> crate::model::NodeV {
    if n.kind == crate::model::ScipSymbolKind::Method && di_only_constructor_spec(n) {
        n
    } else if n.parent_id is Some && n.signature is Some {
        simplified_node(n)
    } else {
        n
    }
}

/// Some node of `defs` is a DI-only constructor method carrying this id.
pub open spec fn fw_removed_id(defs: Seq<crate::model::NodeV>, id: Seq<char>) -> bool {
    exists|k: int|
        {
            &&& 0 <= k < defs.len()
            &&& (#[trigger] defs[k]).kind == crate::model::ScipSymbolKind::Method
            &&& di_only_constructor_spec(defs[k])
            &&& defs[k].id == id
        }
}

/// The node list after the framework filter.
pub open spec fn fw_defs(defs: Seq<crate::model::NodeV>) -> Seq<crate::model::NodeV> {
    defs.map_values(|n: crate::model::NodeV| fw_mapped(n)).filter(
        |n: crate::model::NodeV| !fw_removed_id(defs, n.id),
    )
}

/// The edge list after the framework filter.
pub open spec fn fw_refs(
    defs: Seq<crate::model::NodeV>,
    refs: Seq<crate::model::EdgeV>,
) -> Seq<crate::model::EdgeV> {
    refs.filter(
        |e: crate::model::EdgeV| !fw_removed_id(defs, e.from) && !fw_removed_id(defs, e.to),
    )
}

/// The last path segment carries the `.dto` marker directly before a
/// non-empty final extension.
pub open spec fn dto_suffix(path: Seq<char>) -> bool {
    let name = crate::uri::after_last_slash(path);
    let j = crate::enricher::last_dot(name);
    &&& 0 < j
    &&& j + 1 < name.len()
    &&& text::ends_with(name.subrange(0, j), ".dto"@)
}

/// A path names a data-transfer-object file.
pub open spec fn is_dto_spec(path: Seq<char>) -> bool {
    text::contains_sub(path, "/dto/"@) || dto_suffix(path)
}

/// Framework-noise filter for boilerplate patterns.
pub struct FrameworkNoiseFilter;

impl FrameworkNoiseFilter {
    /// Count unmatched parentheses in a text: positive when more open than
    /// close; the text must be short enough for the signed count.
    pub fn count_parens(text: &str) -> (r: i64)
        requires
            text@.len() <= i64::MAX,
        ensures
            r as int == paren_balance(text@),
    {
        let v = text::chars_of(text);
        paren_balance_exec(&v)
    }

    /// Remove `@Decorator(...)` prefixes, including multi-line ones, keeping
    /// only the trailing declaration text.
    pub fn strip_decorators(signature: &str) -> (r: String)
        requires
            signature@.len() <= i64::MAX,
        ensures
            r@ == stripped_decorators(signature@),
    {
        strip_decorators_impl(signature)
    }

    /// The content after the decorators on a single line, trimmed; nothing
    /// when the line holds only decorators.
    pub fn extract_after_decorator(line: &str) -> (r: Option<String>)
        ensures
            r.deep_view() == after_decorator(line@),
    {
        let v = text::chars_of(line);
        match after_decorator_exec(&v) {
            Some(rem) => Some(text::string_from_chars(&rem)),
            None => None,
        }
    }

    /// Whether a node is a constructor whose signature shows only
    /// dependency-injection parameters.
    pub fn is_di_only_constructor(node: &crate::model::SymbolNode) -> (r: bool)
        ensures
            r == di_only_constructor_spec(node@),
    {
        let name = text::chars_of(node.name.as_str());
        if !text::chars_eq(&name, &text::chars_of("constructor")) {
            return false;
        }
        match &node.signature {
            Some(sig) => {
                let v = text::chars_of(sig.as_str());
                let kws = DiKeywords::new();
                di_signature_shape_exec(&v, &kws) && !complex_logic_exec(&v)
            },
            None => false,
        }
    }

    /// Whether a path names a data-transfer-object file: a `/dto/` segment,
    /// or a filename whose suffix before a non-empty final extension is
    /// `.dto`.
    pub fn is_dto_file(file_path: &str) -> (r: bool)
        ensures
            r == is_dto_spec(file_path@),
    {
        let v = text::chars_of(file_path);
        if text::contains_sub_exec(&v, &text::chars_of("/dto/")) {
            return true;
        }
        let name = crate::uri::after_last_slash_exec(&v);
        let n = name.len();
        let mut i: usize = n;
        proof {
            assert(name@.subrange(0, n as int) =~= name@);
        }
        while i > 0 && name[i - 1] != '.'
            invariant
                n == name@.len(),
                i <= n,
                crate::enricher::last_dot(name@) == crate::enricher::last_dot(
                    name@.subrange(0, i as int),
                ),
            decreases i,
        {
            proof {
                let s = name@.subrange(0, i as int);
                assert(s.last() == name@[i - 1]);
                assert(s.drop_last() =~= name@.subrange(0, i - 1));
            }
            i -= 1;
        }
        if i >= 2 && i < n {
            proof {
                let s = name@.subrange(0, i as int);
                assert(s.last() == name@[i - 1]);
                assert(name@[i - 1] == '.');
                assert(crate::enricher::last_dot(name@) == i - 1);
            }
            let stem = text::subvec(&name, 0, i - 1);
            text::ends_with_exec(&stem, &text::chars_of(".dto"))
        } else {
            proof {
                if i == 0 {
                    assert(name@.subrange(0, 0) =~= Seq::<char>::empty());
                    assert(crate::enricher::last_dot(name@) == -1);
                } else {
                    let s = name@.subrange(0, i as int);
                    assert(s.last() == name@[i - 1]);
                    assert(name@[i - 1] == '.');
                    assert(crate::enricher::last_dot(name@) == i - 1);
                }
            }
            false
        }
    }

    /// Strip decorator metadata from a node's signature and documentation,
    /// keeping each field unchanged when stripping would change nothing.
    pub fn simplify_dto_property(node: &mut crate::model::SymbolNode)
        ensures
            final(node)@ == simplified_node(old(node)@),
    {
        let new_sig = Self::simplify_field(&node.signature);
        let new_doc = Self::simplify_field(&node.documentation);
        node.signature = new_sig;
        node.documentation = new_doc;
        proof {
            assert(final(node)@ =~~= simplified_node(old(node)@));
        }
    }

    fn simplify_field(field: &Option<String>) -> (r: Option<String>)
        ensures
            r.deep_view() == stripped_field(field.deep_view()),
    {
        match field {
            Some(s) => {
                let v = text::chars_of(s.as_str());
                if (v.len() as u64) <= (i64::MAX as u64) && text::contains_char_exec(&v, '@') {
                    let stripped = strip_decorators_impl(s.as_str());
                    let sv = text::chars_of(stripped.as_str());
                    if !text::chars_eq(&sv, &v) {
                        Some(stripped)
                    } else {
                        Some(s.clone())
                    }
                } else {
                    Some(s.clone())
                }
            },
            None => None,
        }
    }

    /// Remove dependency-injection-only constructors with every edge touching
    /// them, and strip decorator metadata from parented, signed nodes.
    pub fn filter_graph(graph: &mut crate::model::YcgGraph)
        ensures
            final(graph).metadata == old(graph).metadata,
            final(graph).definitions.deep_view() == fw_defs(old(graph).definitions.deep_view()),
            final(graph).references.deep_view() == fw_refs(
                old(graph).definitions.deep_view(),
                old(graph).references.deep_view(),
            ),
    {
        let ghost defs0 = graph.definitions.deep_view();
        let mut removed: Vec<String> = Vec::new();
        let mut i: usize = 0;
        while i < graph.definitions.len()
            invariant
                graph.definitions.deep_view() == defs0,
                graph.definitions@.len() == defs0.len(),
                i <= defs0.len(),
                forall|id: Seq<char>|
                    #[trigger] crate::semantic::seq_has_id(removed@, id) <==> fw_removed_id(
                        defs0.subrange(0, i as int),
                        id,
                    ),
            decreases graph.definitions.len() - i,
        {
            let ghost removed0 = removed@;
            let n = &graph.definitions[i];
            proof {
                assert(n@ == defs0[i as int]);
            }
            let is_di = n.kind == crate::model::ScipSymbolKind::Method
                && Self::is_di_only_constructor(n);
            if is_di {
                removed.push(n.id.clone());
            }
            proof {
                let prev = defs0.subrange(0, i as int);
                let pre = defs0.subrange(0, i + 1);
                assert(pre.drop_last() =~= prev);
                assert(pre.last() == defs0[i as int]);
                assert forall|id: Seq<char>|
                    #[trigger] crate::semantic::seq_has_id(removed@, id) implies fw_removed_id(
                    pre,
                    id,
                ) by {
                    let k = choose|k: int|
                        0 <= k < removed@.len() && (#[trigger] removed@[k])@ == id;
                    if k < removed0.len() {
                        assert(removed0[k]@ == id);
                        assert(crate::semantic::seq_has_id(removed0, id));
                        let m = choose|m: int|
                            {
                                &&& 0 <= m < prev.len()
                                &&& (#[trigger] prev[m]).kind
                                    == crate::model::ScipSymbolKind::Method
                                &&& di_only_constructor_spec(prev[m])
                                &&& prev[m].id == id
                            };
                        assert(pre[m].kind == crate::model::ScipSymbolKind::Method
                            && di_only_constructor_spec(pre[m]) && pre[m].id == id);
                    } else {
                        assert(is_di);
                        assert(removed@[k]@ == defs0[i as int].id);
                        assert(pre[i as int].kind == crate::model::ScipSymbolKind::Method
                            && di_only_constructor_spec(pre[i as int]) && pre[i as int].id == id);
                    }
                }
                assert forall|id: Seq<char>| fw_removed_id(pre, id) implies
                    crate::semantic::seq_has_id(removed@, id) by {
                    let k = choose|k: int|
                        {
                            &&& 0 <= k < pre.len()
                            &&& (#[trigger] pre[k]).kind == crate::model::ScipSymbolKind::Method
                            &&& di_only_constructor_spec(pre[k])
                            &&& pre[k].id == id
                        };
                    if k < i {
                        assert(prev[k].kind == crate::model::ScipSymbolKind::Method
                            && di_only_constructor_spec(prev[k]) && prev[k].id == id);
                        assert(fw_removed_id(prev, id));
                        assert(crate::semantic::seq_has_id(removed0, id));
                        let m = choose|m: int|
                            0 <= m < removed0.len() && (#[trigger] removed0[m])@ == id;
                        assert((removed@[m])@ == id);
                    } else {
                        assert(is_di);
                        assert((removed@[removed@.len() - 1])@ == id);
                    }
                }
            }
            i += 1;
        }
        proof {
            assert(defs0.subrange(0, defs0.len() as int) =~= defs0);
        }
        let mut new_defs: Vec<crate::model::SymbolNode> = Vec::new();
        let mut j: usize = 0;
        while j < graph.definitions.len()
            invariant
                graph.definitions.deep_view() == defs0,
                graph.definitions@.len() == defs0.len(),
                j <= defs0.len(),
                forall|id: Seq<char>|
                    #[trigger] crate::semantic::seq_has_id(removed@, id) <==> fw_removed_id(
                        defs0,
                        id,
                    ),
                new_defs.deep_view() == defs0.subrange(0, j as int).map_values(
                    |n: crate::model::NodeV| fw_mapped(n),
                ).filter(|n: crate::model::NodeV| !fw_removed_id(defs0, n.id)),
            decreases graph.definitions.len() - j,
        {
            proof {
                reveal(Seq::filter);
                let pre = defs0.subrange(0, j + 1);
                let prev = defs0.subrange(0, j as int);
                assert(pre.drop_last() =~= prev);
                assert(graph.definitions@[j as int]@ == defs0[j as int]);
                assert(pre.map_values(|n: crate::model::NodeV| fw_mapped(n)).drop_last()
                    =~= prev.map_values(|n: crate::model::NodeV| fw_mapped(n)));
                assert(pre.map_values(|n: crate::model::NodeV| fw_mapped(n)).last() == fw_mapped(
                    defs0[j as int],
                ));
            }
            let node = &graph.definitions[j];
            let is_di = node.kind == crate::model::ScipSymbolKind::Method
                && Self::is_di_only_constructor(node);
            let keep = !crate::semantic::seq_has_id_exec(&removed, &node.id);
            if keep {
                let mut m = node.clone();
                if !is_di && m.parent_id.is_some() && m.signature.is_some() {
                    Self::simplify_dto_property(&mut m);
                }
                proof {
                    assert(m@ == fw_mapped(defs0[j as int]));
                }
                let ghost before = new_defs.deep_view();
                new_defs.push(m);
                proof {
                    assert(new_defs.deep_view() =~= before.push(m@));
                }
            }
            j += 1;
        }
        proof {
            assert(defs0.subrange(0, defs0.len() as int) =~= defs0);
        }
        let ghost refs0 = graph.references.deep_view();
        let mut new_refs: Vec<crate::model::ReferenceEdge> = Vec::new();
        let mut k: usize = 0;
        while k < graph.references.len()
            invariant
                graph.references.deep_view() == refs0,
                graph.references@.len() == refs0.len(),
                k <= refs0.len(),
                forall|id: Seq<char>|
                    #[trigger] crate::semantic::seq_has_id(removed@, id) <==> fw_removed_id(
                        defs0,
                        id,
                    ),
                new_refs.deep_view() == refs0.subrange(0, k as int).filter(
                    |e: crate::model::EdgeV| !fw_removed_id(defs0, e.from) && !fw_removed_id(
                        defs0,
                        e.to,
                    ),
                ),
            decreases graph.references.len() - k,
        {
            proof {
                reveal(Seq::filter);
                let pre = refs0.subrange(0, k + 1);
                assert(pre.drop_last() =~= refs0.subrange(0, k as int));
                assert(graph.references@[k as int]@ == refs0[k as int]);
            }
            let keep = !crate::semantic::seq_has_id_exec(&removed, &graph.references[k].from)
                && !crate::semantic::seq_has_id_exec(&removed, &graph.references[k].to);
            if keep {
                let e = graph.references[k].clone();
                let ghost before = new_refs.deep_view();
                new_refs.push(e);
                proof {
                    assert(new_refs.deep_view() =~= before.push(e@));
                }
            }
            k += 1;
        }
        proof {
            assert(refs0.subrange(0, refs0.len() as int) =~= refs0);
        }
        graph.definitions = new_defs;
        graph.references = new_refs;
    }
}

} // verus!
