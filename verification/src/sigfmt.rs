//! Signature compaction for the ad-hoc format: call-style signatures are
//! condensed to `name(arg:Type,...):Return` with abbreviated types, and long
//! fluent query-builder chains are summarized to `name: Entity[]`.

use vstd::prelude::*;

use crate::framework;
use crate::model::{NodeV, SymbolNode};
use crate::text;

verus! {

/// Index of the first occurrence of `p` in `s`; `s.len()` or beyond when `p`
/// never occurs.
pub open spec fn first_match(s: Seq<char>, p: Seq<char>) -> int
    decreases s.len(),
{
    if s.len() == 0 {
        0
    } else if text::matches_at(s, 0, p) {
        0
    } else {
        1 + first_match(s.drop_first(), p)
    }
}

proof fn lemma_matches_shift(s: Seq<char>, p: Seq<char>, j: int)
    requires
        j >= 1,
        s.len() > 0,
    ensures
        text::matches_at(s, j, p) == text::matches_at(s.drop_first(), j - 1, p),
{
    if text::matches_at(s, j, p) {
        assert(s.drop_first().subrange(j - 1, j - 1 + p.len()) =~= s.subrange(j, j + p.len()));
    }
    if text::matches_at(s.drop_first(), j - 1, p) {
        assert(s.subrange(j, j + p.len()) =~= s.drop_first().subrange(j - 1, j - 1 + p.len()));
    }
}

pub(crate) proof fn lemma_first_match_determined(s: Seq<char>, p: Seq<char>, k: int)
    requires
        0 <= k,
        text::matches_at(s, k, p),
        forall|j: int| 0 <= j < k ==> !text::matches_at(s, j, p),
    ensures
        first_match(s, p) == k,
    decreases s.len(),
{
    if s.len() == 0 {
        assert(k + p.len() <= 0);
        assert(k == 0);
    } else if k == 0 {
    } else {
        assert(!text::matches_at(s, 0, p));
        lemma_matches_shift(s, p, k);
        assert forall|j: int| 0 <= j < k - 1 implies !text::matches_at(
            s.drop_first(),
            j,
            p,
        ) by {
            lemma_matches_shift(s, p, j + 1);
        }
        lemma_first_match_determined(s.drop_first(), p, k - 1);
    }
}

pub(crate) proof fn lemma_first_match_absent(s: Seq<char>, p: Seq<char>)
    requires
        !text::contains_sub(s, p),
    ensures
        first_match(s, p) >= s.len(),
    decreases s.len(),
{
    if s.len() > 0 {
        assert forall|j: int| !text::matches_at(s.drop_first(), j, p) by {
            if 0 <= j {
                if text::matches_at(s.drop_first(), j, p) {
                    lemma_matches_shift(s, p, j + 1);
                    assert(text::matches_at(s, j + 1, p));
                }
            } else {
            }
        }
        lemma_first_match_absent(s.drop_first(), p);
    }
}

/// `s` with every occurrence of `p` replaced by `r`, left to right.
pub open spec fn replace_all(s: Seq<char>, p: Seq<char>, r: Seq<char>) -> Seq<char>
    decreases s.len(),
{
    if p.len() == 0 {
        s
    } else {
        let i = first_match(s, p);
        if 0 <= i && i + p.len() <= s.len() && text::matches_at(s, i, p) {
            s.subrange(0, i) + r + replace_all(s.subrange(i + p.len(), s.len() as int), p, r)
        } else {
            s
        }
    }
}

/// Replace every occurrence of `p` in `v` by `r`.
pub(crate) fn replace_all_exec(v: &Vec<char>, p: &Vec<char>, r: &Vec<char>) -> (out: Vec<char>)
    requires
        p@.len() > 0,
    ensures
        out@ == replace_all(v@, p@, r@),
{
    let mut out: Vec<char> = Vec::new();
    let mut rest: Vec<char> = text::subvec(v, 0, v.len());
    proof {
        assert(rest@ =~= v@);
        assert(out@ + replace_all(rest@, p@, r@) =~= replace_all(v@, p@, r@));
    }
    loop
        invariant
            p@.len() > 0,
            out@ + replace_all(rest@, p@, r@) == replace_all(v@, p@, r@),
        decreases rest@.len(),
    {
        let rn = rest.len();
        let found = text::find_sub(&rest, p);
        match found {
            Some(i) => {
                proof {
                    lemma_first_match_determined(rest@, p@, i as int);
                    assert(i + p@.len() <= rn);
                }
                let chunk = text::subvec(&rest, 0, i);
                let ghost out0 = out@;
                text::append_vec(&mut out, &chunk);
                text::append_vec(&mut out, r);
                let new_rest = text::subvec(&rest, i + p.len(), rest.len());
                proof {
                    assert(replace_all(rest@, p@, r@) == rest@.subrange(0, i as int) + r@
                        + replace_all(new_rest@, p@, r@));
                    assert(out@ + replace_all(new_rest@, p@, r@) =~= out0 + replace_all(
                        rest@,
                        p@,
                        r@,
                    ));
                    assert(new_rest@.len() < rest@.len());
                }
                rest = new_rest;
            },
            None => {
                proof {
                    lemma_first_match_absent(rest@, p@);
                    if first_match(rest@, p@) == rest@.len() && text::matches_at(
                        rest@,
                        rest@.len() as int,
                        p@,
                    ) {
                        assert(p@.len() == 0);
                    }
                    assert(replace_all(rest@, p@, r@) == rest@);
                }
                let ghost out0 = out@;
                text::append_vec(&mut out, &rest);
                proof {
                    assert(out@ =~= out0 + rest@);
                }
                return out;
            },
        }
    }
}

/// `s` without space characters.
pub open spec fn despace(s: Seq<char>) -> Seq<char> {
    s.filter(|c: char| c != ' ')
}

fn despace_exec(v: &Vec<char>) -> (r: Vec<char>)
    ensures
        r@ == despace(v@),
{
    let mut r: Vec<char> = Vec::new();
    let mut i: usize = 0;
    while i < v.len()
        invariant
            i <= v@.len(),
            r@ == v@.subrange(0, i as int).filter(|c: char| c != ' '),
        decreases v.len() - i,
    {
        proof {
            reveal(Seq::filter);
            let pre = v@.subrange(0, i as int);
            assert(v@.subrange(0, i + 1) =~= pre.push(v@[i as int]));
            assert(v@.subrange(0, i + 1).drop_last() =~= pre);
        }
        let c = v[i];
        if c != ' ' {
            r.push(c);
        }
        i += 1;
    }
    proof {
        assert(v@.subrange(0, v@.len() as int) =~= v@);
    }
    r
}

/// Common type tokens abbreviated: `string`, `number`, `boolean`.
pub open spec fn abbrev_types(s: Seq<char>) -> Seq<char> {
    replace_all(
        replace_all(replace_all(s, "string"@, "str"@), "number"@, "num"@),
        "boolean"@,
        "bool"@,
    )
}

fn abbrev_types_exec(v: &Vec<char>) -> (r: Vec<char>)
    ensures
        r@ == abbrev_types(v@),
{
    proof {
        reveal_strlit("string");
        reveal_strlit("number");
        reveal_strlit("boolean");
    }
    let a = replace_all_exec(v, &text::chars_of("string"), &text::chars_of("str"));
    let b = replace_all_exec(&a, &text::chars_of("number"), &text::chars_of("num"));
    replace_all_exec(&b, &text::chars_of("boolean"), &text::chars_of("bool"))
}

/// A signature structurally shaped like a fluent query-builder chain ending
/// in a result call.
pub open spec fn is_query_builder(s: Seq<char>) -> bool {
    text::contains_sub(s, "createQueryBuilder("@) && (text::ends_with(s, ".getMany()"@)
        || text::ends_with(s, ".getOne()"@))
}

/// Index of the first single-quoted character after the builder call, used
/// to read the entity name out of `createQueryBuilder('Entity', ...)`.
pub open spec fn entity_of(s: Seq<char>) -> Option<Seq<char>> {
    let i = first_match(s, "createQueryBuilder("@);
    if i + 19 < s.len() && text::matches_at(s, i, "createQueryBuilder("@) && s[i + 19] == '\'' {
        let e = i + 20;
        let q = e + first_match(s.subrange(e, s.len() as int), "'"@);
        if e < q < s.len() && s[q] == '\'' {
            Some(s.subrange(e, q))
        } else {
            None
        }
    } else {
        None
    }
}

/// The one-line summary of a query-builder chain: the variable name, the
/// entity (or `QueryResult`), and `[]` for a many-result call.
pub open spec fn summarized(name: Seq<char>, s: Seq<char>) -> Seq<char> {
    let many: Seq<char> = if text::ends_with(s, ".getMany()"@) {
        "[]"@
    } else {
        Seq::empty()
    };
    match entity_of(s) {
        Some(ent) => name + ": "@ + ent + many,
        None => name + ": QueryResult"@ + many,
    }
}

fn summarize_exec(name: &Vec<char>, v: &Vec<char>) -> (r: Vec<char>)
    ensures
        r@ == summarized(name@, v@),
{
    proof {
        reveal_strlit("createQueryBuilder(");
        reveal_strlit(".getMany()");
        reveal_strlit("'");
    }
    let pat = text::chars_of("createQueryBuilder(");
    let mut out = text::subvec(name, 0, name.len());
    proof {
        assert(out@ =~= name@);
    }
    let entity: Option<Vec<char>> = match text::find_sub(v, &pat) {
        Some(i) => {
            let n = v.len();
            proof {
                reveal_strlit("createQueryBuilder(");
                lemma_first_match_determined(v@, "createQueryBuilder("@, i as int);
                assert(i + 19 <= n);
            }
            if i + 19 < v.len() && v[i + 19] == '\'' {
                let e = i + 20;
                let tail = text::subvec(v, e, v.len());
                let quote = text::chars_of("'");
                match text::find_sub(&tail, &quote) {
                    Some(off) => {
                        proof {
                            lemma_first_match_determined(tail@, "'"@, off as int);
                        }
                        let q = e + off;
                        if off > 0 {
                            proof {
                                reveal_strlit("'");
                                assert(v@[q as int] == tail@[off as int]);
                                assert(text::matches_at(tail@, off as int, "'"@));
                                let sr = tail@.subrange(off as int, off + 1);
                                assert(sr == "'"@);
                                assert(sr[0] == tail@[off as int]);
                                assert(tail@[off as int] == '\'');
                                assert(v@.subrange(e as int, q as int) =~= tail@.subrange(
                                    0,
                                    off as int,
                                ));
                            }
                            Some(text::subvec(v, e, q))
                        } else {
                            None
                        }
                    },
                    None => {
                        proof {
                            lemma_first_match_absent(tail@, "'"@);
                        }
                        None
                    },
                }
            } else {
                None
            }
        },
        None => {
            proof {
                lemma_first_match_absent(v@, "createQueryBuilder("@);
            }
            None
        },
    };
    match entity {
        Some(ent) => {
            text::append_vec(&mut out, &text::chars_of(": "));
            text::append_vec(&mut out, &ent);
        },
        None => {
            text::append_vec(&mut out, &text::chars_of(": QueryResult"));
        },
    }
    if text::ends_with_exec(v, &text::chars_of(".getMany()")) {
        text::append_vec(&mut out, &text::chars_of("[]"));
    }
    proof {
        assert(out@ =~= summarized(name@, v@));
    }
    out
}


/// Start of the trailing identifier of `t`: the smallest index from which
/// every character is a word character.
pub open spec fn word_start(t: Seq<char>) -> int
    decreases t.len(),
{
    if t.len() == 0 || !text::is_word(t.last()) {
        t.len() as int
    } else {
        word_start(t.drop_last())
    }
}

proof fn lemma_word_start(t: Seq<char>)
    ensures
        0 <= word_start(t) <= t.len(),
        forall|j: int| word_start(t) <= j < t.len() ==> text::is_word(#[trigger] t[j]),
        word_start(t) > 0 ==> !text::is_word(t[word_start(t) - 1]),
    decreases t.len(),
{
    if t.len() > 0 && text::is_word(t.last()) {
        lemma_word_start(t.drop_last());
        assert forall|j: int| word_start(t) <= j < t.len() implies text::is_word(
            #[trigger] t[j],
        ) by {
            if j < t.len() - 1 {
                assert(text::is_word(t.drop_last()[j]));
            }
        }
    }
}

fn word_start_exec(v: &Vec<char>) -> (r: usize)
    ensures
        r as int == word_start(v@),
{
    let mut k: usize = v.len();
    proof {
        assert(v@.subrange(0, v@.len() as int) =~= v@);
    }
    while k > 0 && text::word_exec(v[k - 1])
        invariant
            k <= v@.len(),
            word_start(v@) == word_start(v@.subrange(0, k as int)),
        decreases k,
    {
        proof {
            let s = v@.subrange(0, k as int);
            assert(s.last() == v@[k - 1]);
            assert(s.drop_last() =~= v@.subrange(0, k - 1));
        }
        k -= 1;
    }
    proof {
        let s = v@.subrange(0, k as int);
        if k > 0 {
            assert(s.last() == v@[k - 1]);
        }
        assert(word_start(s) == s.len());
    }
    k
}

/// Index of the parenthesis closing the group that is `depth` deep at `i`;
/// `s.len()` when the group never closes.
pub open spec fn match_close(s: Seq<char>, i: int, depth: int) -> int
    decreases s.len() - i when 0 <= i <= s.len()
{
    if i >= s.len() {
        s.len() as int
    } else if s[i] == '(' {
        match_close(s, i + 1, depth + 1)
    } else if s[i] == ')' {
        if depth == 1 {
            i
        } else {
            match_close(s, i + 1, depth - 1)
        }
    } else {
        match_close(s, i + 1, depth)
    }
}

proof fn lemma_match_close_range(s: Seq<char>, i: int, depth: int)
    requires
        0 <= i <= s.len(),
    ensures
        i <= match_close(s, i, depth) <= s.len(),
    decreases s.len() - i,
{
    if i < s.len() {
        if s[i] == '(' {
            lemma_match_close_range(s, i + 1, depth + 1);
        } else if s[i] == ')' {
            if depth != 1 {
                lemma_match_close_range(s, i + 1, depth - 1);
            }
        } else {
            lemma_match_close_range(s, i + 1, depth);
        }
    }
}

fn match_close_exec(v: &Vec<char>, start: usize) -> (r: usize)
    requires
        start <= v@.len(),
    ensures
        r as int == match_close(v@, start as int, 1),
        start <= r <= v@.len(),
{
    let n = v.len();
    let mut i: usize = start;
    let mut depth: u128 = 1;
    while i < n
        invariant
            n == v@.len(),
            start <= i <= n,
            1 <= depth <= (i as u128) + 1,
            match_close(v@, start as int, 1) == match_close(v@, i as int, depth as int),
        decreases n - i,
    {
        let c = v[i];
        if c == '(' {
            depth += 1;
        } else if c == ')' {
            if depth == 1 {
                proof {
                    lemma_match_close_range(v@, start as int, 1);
                }
                return i;
            }
            depth -= 1;
        }
        i += 1;
    }
    proof {
        lemma_match_close_range(v@, start as int, 1);
    }
    n
}

/// Depth change a bracket character causes.
pub open spec fn bracket_delta(c: char) -> int {
    if c == '(' || c == '<' || c == '{' || c == '[' {
        1
    } else if c == ')' || c == '>' || c == '}' || c == ']' {
        -1
    } else {
        0
    }
}

/// The argument list `t` split at top-level commas, scanning from `i` with
/// the current segment started at `start` and the given bracket depth.
pub open spec fn split_args_from(t: Seq<char>, start: int, i: int, depth: int) -> Seq<Seq<char>>
    decreases t.len() - i when 0 <= start <= i <= t.len()
{
    if i >= t.len() {
        seq![t.subrange(start, t.len() as int)]
    } else {
        let c = t[i];
        if c == ',' && depth == 0 {
            seq![t.subrange(start, i)] + split_args_from(t, i + 1, i + 1, 0)
        } else {
            split_args_from(t, start, i + 1, depth + bracket_delta(c))
        }
    }
}

/// Index of the first `:` of `t` at bracket depth zero; `t.len()` when there
/// is none.
pub open spec fn first_colon_top(t: Seq<char>, i: int, depth: int) -> int
    decreases t.len() - i when 0 <= i <= t.len()
{
    if i >= t.len() {
        t.len() as int
    } else {
        let c = t[i];
        if c == ':' && depth == 0 {
            i
        } else {
            first_colon_top(t, i + 1, depth + bracket_delta(c))
        }
    }
}

proof fn lemma_first_colon_range(t: Seq<char>, i: int, depth: int)
    requires
        0 <= i <= t.len(),
    ensures
        i <= first_colon_top(t, i, depth) <= t.len(),
    decreases t.len() - i,
{
    if i < t.len() && !(t[i] == ':' && depth == 0) {
        lemma_first_colon_range(t, i + 1, depth + bracket_delta(t[i]));
    }
}

fn bracket_delta_exec(c: char) -> (r: i8)
    ensures
        r as int == bracket_delta(c),
{
    if c == '(' || c == '<' || c == '{' || c == '[' {
        1
    } else if c == ')' || c == '>' || c == '}' || c == ']' {
        -1
    } else {
        0
    }
}

fn first_colon_top_exec(t: &Vec<char>) -> (r: usize)
    ensures
        r as int == first_colon_top(t@, 0, 0),
        r <= t@.len(),
{
    let n = t.len();
    let mut i: usize = 0;
    let mut opens: usize = 0;
    let mut closes: usize = 0;
    while i < n
        invariant
            n == t@.len(),
            i <= n,
            opens <= i,
            closes <= i,
            first_colon_top(t@, 0, 0) == first_colon_top(
                t@,
                i as int,
                opens as int - closes as int,
            ),
        decreases n - i,
    {
        let c = t[i];
        if c == ':' && opens == closes {
            return i;
        }
        let d = bracket_delta_exec(c);
        if d == 1 {
            opens += 1;
        } else if d == -1 {
            closes += 1;
        }
        i += 1;
    }
    n
}

/// A compacted argument: decorators dropped, `name: Type` condensed to
/// `name:Type` with the type abbreviated and despaced; `None` for an
/// argument without a top-level colon or holding only decorators.
pub open spec fn arg_compact(a: Seq<char>) -> Option<Seq<char>> {
    let t = text::trimmed(a);
    let content: Option<Seq<char>> = if t.len() > 0 && t[0] == '@' {
        framework::after_decorator(t)
    } else {
        Some(t)
    };
    match content {
        Some(rem) => {
            let ci = first_colon_top(rem, 0, 0);
            if 0 <= ci < rem.len() {
                let nm = text::trimmed(rem.subrange(0, ci));
                let ty = despace(
                    abbrev_types(text::trimmed(rem.subrange(ci + 1, rem.len() as int))),
                );
                Some(nm + ":"@ + ty)
            } else {
                None
            }
        },
        None => None,
    }
}

fn arg_compact_exec(a: &Vec<char>) -> (r: Option<Vec<char>>)
    ensures
        match r {
            Some(x) => arg_compact(a@) == Some(x@),
            None => arg_compact(a@) is None,
        },
{
    let t = text::trim(a);
    let content: Option<Vec<char>> = if t.len() > 0 && t[0] == '@' {
        framework::after_decorator_exec(&t)
    } else {
        Some(t)
    };
    match content {
        Some(rem) => {
            let ci = first_colon_top_exec(&rem);
            if ci < rem.len() {
                proof {
                    lemma_first_colon_range(rem@, 0, 0);
                }
                let nm_part = text::subvec(&rem, 0, ci);
                let nm = text::trim(&nm_part);
                let ty_part = text::subvec(&rem, ci + 1, rem.len());
                let ty_trim = text::trim(&ty_part);
                let ty_abbrev = abbrev_types_exec(&ty_trim);
                let ty = despace_exec(&ty_abbrev);
                let mut out = nm;
                out.push(':');
                let ghost mid = out@;
                text::append_vec(&mut out, &ty);
                proof {
                    assert(mid =~= text::trimmed(rem@.subrange(0, ci as int)) + ":"@) by {
                        reveal_strlit(":");
                        assert(text::trimmed(rem@.subrange(0, ci as int)).push(':') =~= text::trimmed(
                            rem@.subrange(0, ci as int),
                        ) + ":"@);
                    }
                }
                Some(out)
            } else {
                None
            }
        },
        None => None,
    }
}

/// The kept compacted arguments, joined with commas.
pub open spec fn joined_args(args: Seq<Seq<char>>) -> Seq<char>
    decreases args.len(),
{
    if args.len() == 0 {
        Seq::empty()
    } else {
        match arg_compact(args[0]) {
            Some(x) => {
                let rest = joined_args(args.drop_first());
                if rest.len() > 0 {
                    x + ","@ + rest
                } else {
                    x
                }
            },
            None => joined_args(args.drop_first()),
        }
    }
}


/// A compacted argument always carries at least its colon.
proof fn lemma_arg_compact_nonempty(a: Seq<char>)
    ensures
        arg_compact(a) is Some ==> arg_compact(a).unwrap().len() > 0,
{
    reveal_strlit(":");
}

/// Two argument texts joined with a comma when both are non-empty.
spec fn join2(a: Seq<char>, b: Seq<char>) -> Seq<char> {
    if a.len() == 0 {
        b
    } else if b.len() == 0 {
        a
    } else {
        a + ","@ + b
    }
}

proof fn lemma_join2_assoc(a: Seq<char>, x: Seq<char>, b: Seq<char>)
    requires
        x.len() > 0,
    ensures
        join2(join2(a, x), b) == join2(a, join2(x, b)),
{
    if a.len() == 0 {
    } else if b.len() == 0 {
    } else {
        assert((a + ","@ + x) + ","@ + b =~= a + ","@ + (x + ","@ + b));
    }
}

fn split_args_exec(t: &Vec<char>) -> (r: Vec<Vec<char>>)
    ensures
        r.deep_view() == split_args_from(t@, 0, 0, 0),
{
    let n = t.len();
    let mut acc: Vec<Vec<char>> = Vec::new();
    let mut start: usize = 0;
    let mut i: usize = 0;
    let mut opens: usize = 0;
    let mut closes: usize = 0;
    proof {
        assert(acc.deep_view() =~= Seq::<Seq<char>>::empty());
        assert(Seq::<Seq<char>>::empty() + split_args_from(t@, 0, 0, 0) =~= split_args_from(
            t@,
            0,
            0,
            0,
        ));
    }
    while i < n
        invariant
            n == t@.len(),
            start <= i <= n,
            opens <= i,
            closes <= i,
            split_args_from(t@, 0, 0, 0) == acc.deep_view() + split_args_from(
                t@,
                start as int,
                i as int,
                opens as int - closes as int,
            ),
        decreases n - i,
    {
        let c = t[i];
        if c == ',' && opens == closes {
            let seg = text::subvec(t, start, i);
            let ghost acc0 = acc.deep_view();
            acc.push(seg);
            proof {
                assert(acc.deep_view() =~~= acc0.push(seg@));
                assert(acc0 + (seq![t@.subrange(start as int, i as int)] + split_args_from(
                    t@,
                    i + 1,
                    i + 1,
                    0,
                )) =~= acc.deep_view() + split_args_from(t@, i + 1, i + 1, 0));
            }
            start = i + 1;
            opens = 0;
            closes = 0;
        } else {
            let d = bracket_delta_exec(c);
            if d == 1 {
                opens += 1;
            } else if d == -1 {
                closes += 1;
            }
        }
        i += 1;
    }
    let seg = text::subvec(t, start, n);
    let ghost acc0 = acc.deep_view();
    acc.push(seg);
    proof {
        assert(acc.deep_view() =~~= acc0.push(seg@));
        assert(acc0 + seq![t@.subrange(start as int, n as int)] =~= acc.deep_view());
    }
    acc
}

fn joined_args_exec(args: &Vec<Vec<char>>) -> (r: Vec<char>)
    ensures
        r@ == joined_args(args.deep_view()),
{
    let ghost av = args.deep_view();
    let mut out: Vec<char> = Vec::new();
    let mut i: usize = 0;
    proof {
        assert(av.subrange(0, av.len() as int) =~= av);
    }
    while i < args.len()
        invariant
            av == args.deep_view(),
            args@.len() == av.len(),
            i <= av.len(),
            joined_args(av) == join2(out@, joined_args(av.subrange(i as int, av.len() as int))),
        decreases args.len() - i,
    {
        let ghost suffix = av.subrange(i as int, av.len() as int);
        proof {
            assert(suffix[0] == av[i as int]);
            assert(suffix.drop_first() =~= av.subrange(i + 1, av.len() as int));
            assert(args@[i as int].deep_view() == av[i as int]);
            assert(args@[i as int]@ =~= av[i as int]);
        }
        match arg_compact_exec(&args[i]) {
            Some(x) => {
                proof {
                    lemma_arg_compact_nonempty(av[i as int]);
                    lemma_join2_assoc(
                        out@,
                        x@,
                        joined_args(av.subrange(i + 1, av.len() as int)),
                    );
                    assert(joined_args(suffix) == join2(
                        x@,
                        joined_args(av.subrange(i + 1, av.len() as int)),
                    ));
                }
                if out.len() > 0 {
                    let ghost out0 = out@;
                    out.push(',');
                    let ghost out1 = out@;
                    text::append_vec(&mut out, &x);
                    proof {
                        reveal_strlit(",");
                        assert(out1 =~= out0 + ","@);
                        assert(out@ =~= out0 + ","@ + x@);
                        assert(out@ =~= join2(out0, x@));
                    }
                } else {
                    text::append_vec(&mut out, &x);
                    proof {
                        assert(out@ =~= x@);
                    }
                }
            },
            None => {
                proof {
                    assert(joined_args(suffix) == joined_args(
                        av.subrange(i + 1, av.len() as int),
                    ));
                }
            },
        }
        i += 1;
    }
    proof {
        assert(av.subrange(av.len() as int, av.len() as int) =~= Seq::<Seq<char>>::empty());
    }
    out
}

/// The call-style compaction of a signature: the identifier before the first
/// parenthesis, the kept arguments condensed, and the abbreviated return
/// type; `None` when the text has no parseable call shape.
pub open spec fn compact_of(s: Seq<char>) -> Option<Seq<char>> {
    let p = first_match(s, "("@);
    if 0 <= p < s.len() && s[p] == '(' {
        let prefix_t = text::trimmed(s.subrange(0, p));
        let nm = prefix_t.subrange(word_start(prefix_t), prefix_t.len() as int);
        if nm.len() == 0 {
            None
        } else {
            let mc = match_close(s, p + 1, 1);
            if mc >= s.len() {
                None
            } else {
                let joined = joined_args(split_args_from(s.subrange(p + 1, mc), 0, 0, 0));
                let tail = text::trimmed(s.subrange(mc + 1, s.len() as int));
                let ret: Seq<char> = if tail.len() > 0 && tail[0] == ':' {
                    ":"@ + despace(
                        abbrev_types(text::trimmed(tail.subrange(1, tail.len() as int))),
                    )
                } else {
                    Seq::empty()
                };
                Some(nm + "("@ + joined + ")"@ + ret)
            }
        }
    } else {
        None
    }
}

fn compact_exec(v: &Vec<char>) -> (r: Option<Vec<char>>)
    ensures
        match r {
            Some(x) => compact_of(v@) == Some(x@),
            None => compact_of(v@) is None,
        },
{
    proof {
        reveal_strlit("(");
    }
    let n = v.len();
    let paren = text::chars_of("(");
    let found = text::find_sub(v, &paren);
    match found {
        Some(p) => {
            proof {
                lemma_first_match_determined(v@, "("@, p as int);
                assert(p + 1 <= n);
                let sr = v@.subrange(p as int, p + 1);
                assert(sr == "("@);
                assert(sr[0] == v@[p as int]);
                assert(v@[p as int] == '(');
            }
            let prefix = text::subvec(v, 0, p);
            let prefix_t = text::trim(&prefix);
            let ws = word_start_exec(&prefix_t);
            proof {
                lemma_word_start(prefix_t@);
            }
            let nm = text::subvec(&prefix_t, ws, prefix_t.len());
            if nm.len() == 0 {
                return None;
            }
            let mc = match_close_exec(v, p + 1);
            if mc >= n {
                return None;
            }
            let args_region = text::subvec(v, p + 1, mc);
            let args = split_args_exec(&args_region);
            let joined = joined_args_exec(&args);
            let tail_part = text::subvec(v, mc + 1, n);
            let tail = text::trim(&tail_part);
            let mut out = nm;
            out.push('(');
            let ghost after_open = out@;
            text::append_vec(&mut out, &joined);
            out.push(')');
            let ghost after_close = out@;
            proof {
                reveal_strlit("(");
                reveal_strlit(")");
                let nmv = text::trimmed(v@.subrange(0, p as int)).subrange(
                    word_start(text::trimmed(v@.subrange(0, p as int))),
                    text::trimmed(v@.subrange(0, p as int)).len() as int,
                );
                assert(after_open =~= nmv + "("@);
                assert(after_close =~= nmv + "("@ + joined@ + ")"@);
            }
            if tail.len() > 0 && tail[0] == ':' {
                out.push(':');
                let ghost with_colon = out@;
                let ret_part = text::subvec(&tail, 1, tail.len());
                let ret_trim = text::trim(&ret_part);
                let ret_abbrev = abbrev_types_exec(&ret_trim);
                let ret = despace_exec(&ret_abbrev);
                text::append_vec(&mut out, &ret);
                proof {
                    reveal_strlit(":");
                    assert(with_colon =~= after_close + ":"@);
                    let retv = ":"@ + despace(
                        abbrev_types(
                            text::trimmed(
                                text::trimmed(v@.subrange(mc + 1, v@.len() as int)).subrange(
                                    1,
                                    text::trimmed(v@.subrange(mc + 1, v@.len() as int)).len() as int,
                                ),
                            ),
                        ),
                    );
                    assert(out@ =~= after_close + retv);
                    assert(compact_of(v@) == Some(after_close + retv));
                }
                Some(out)
            } else {
                proof {
                    assert(after_close + Seq::<char>::empty() =~= after_close);
                    assert(compact_of(v@) == Some(after_close));
                }
                Some(out)
            }
        },
        None => {
            proof {
                lemma_first_match_absent(v@, "("@);
            }
            None
        },
    }
}

/// The signature the ad-hoc serializer inlines for a node: a long
/// query-builder chain is summarized, any other signature is compacted, and
/// an unparseable or missing signature yields `None`.
pub open spec fn extracted_signature(n: NodeV) -> Option<Seq<char>> {
    match n.signature {
        Some(s) => if s.len() > 100 && is_query_builder(s) {
            Some(summarized(n.name, s))
        } else {
            compact_of(s)
        },
        None => None,
    }
}

/// Extractor of inline signatures for the ad-hoc format.
pub struct SignatureExtractor;

impl SignatureExtractor {
    /// Extract the compact inline signature of a node, if one can be made.
    pub fn extract_signature(node: &SymbolNode) -> (r: Option<String>)
        ensures
            r.deep_view() == extracted_signature(node@),
    {
        match &node.signature {
            Some(sig) => {
                let v = text::chars_of(sig.as_str());
                let qb = text::contains_sub_exec(&v, &text::chars_of("createQueryBuilder("))
                    && (text::ends_with_exec(&v, &text::chars_of(".getMany()"))
                    || text::ends_with_exec(&v, &text::chars_of(".getOne()")));
                if v.len() > 100 && qb {
                    let name = text::chars_of(node.name.as_str());
                    let summary = summarize_exec(&name, &v);
                    Some(text::string_from_chars(&summary))
                } else {
                    match compact_exec(&v) {
                        Some(c) => Some(text::string_from_chars(&c)),
                        None => None,
                    }
                }
            },
            None => None,
        }
    }
}

} // verus!
