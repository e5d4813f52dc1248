//! Textual parsing of symbol URIs: display-name extraction, kind inference,
//! and parent resolution.

use vstd::prelude::*;

use crate::anchor;
use crate::text;

verus! {

/// A name is generic when it is one or more lowercase letters followed by one
/// or more digits, with no letter after a digit (`status0`, `user2`).
pub open spec fn is_generic_name_spec(s: Seq<char>) -> bool {
    &&& s.len() > 0
    &&& forall|i: int| 0 <= i < s.len() ==> text::is_lower(#[trigger] s[i]) || text::is_digit(s[i])
    &&& forall|i: int, j: int|
        0 <= i < j < s.len() ==> !(text::is_digit(#[trigger] s[i]) && text::is_lower(
            #[trigger] s[j],
        ))
    &&& exists|i: int| 0 <= i < s.len() && text::is_lower(#[trigger] s[i])
    &&& exists|i: int| 0 <= i < s.len() && text::is_digit(#[trigger] s[i])
}

/// Whether a variable name is a generic index-generated name.
pub fn is_generic_name(name: &str) -> (r: bool)
    ensures
        r == is_generic_name_spec(name@),
{
    let v = text::chars_of(name);
    if v.len() == 0 {
        return false;
    }
    let mut has_letters = false;
    let mut has_digits = false;
    let mut i: usize = 0;
    while i < v.len()
        invariant
            v@ == name@,
            i <= v@.len(),
            forall|j: int| 0 <= j < i ==> text::is_lower(#[trigger] v@[j]) || text::is_digit(v@[j]),
            forall|j: int, k: int|
                0 <= j < k < i ==> !(text::is_digit(#[trigger] v@[j]) && text::is_lower(
                    #[trigger] v@[k],
                )),
            has_letters == exists|j: int| 0 <= j < i && text::is_lower(#[trigger] v@[j]),
            has_digits == exists|j: int| 0 <= j < i && text::is_digit(#[trigger] v@[j]),
        decreases v.len() - i,
    {
        let c = v[i];
        if text::lower_exec(c) {
            if has_digits {
                return false;
            }
            has_letters = true;
        } else if text::digit_exec(c) {
            has_digits = true;
        } else {
            return false;
        }
        i += 1;
    }
    has_letters && has_digits
}

/// `s` with the maximal trailing run of `c` removed.
pub open spec fn strip_trailing_char(s: Seq<char>, c: char) -> Seq<char>
    decreases s.len(),
{
    if s.len() > 0 && s.last() == c {
        strip_trailing_char(s.drop_last(), c)
    } else {
        s
    }
}

/// `s` with maximal trailing repetitions of `p` removed.
pub open spec fn strip_trailing_pat(s: Seq<char>, p: Seq<char>) -> Seq<char>
    decreases s.len(),
{
    if p.len() > 0 && text::ends_with(s, p) && s.len() >= p.len() {
        strip_trailing_pat(s.subrange(0, s.len() - p.len()), p)
    } else {
        s
    }
}

fn strip_trailing_char_exec(v: &Vec<char>, c: char) -> (r: Vec<char>)
    ensures
        r@ == strip_trailing_char(v@, c),
{
    let mut end: usize = v.len();
    proof {
        assert(v@.subrange(0, v@.len() as int) =~= v@);
    }
    while end > 0 && v[end - 1] == c
        invariant
            end <= v@.len(),
            strip_trailing_char(v@, c) == strip_trailing_char(v@.subrange(0, end as int), c),
        decreases end,
    {
        proof {
            let s = v@.subrange(0, end as int);
            assert(s.drop_last() =~= v@.subrange(0, end - 1));
        }
        end -= 1;
    }
    proof {
        let s = v@.subrange(0, end as int);
        assert(strip_trailing_char(s, c) == s);
    }
    subvec_full(v, end)
}

fn subvec_full(v: &Vec<char>, end: usize) -> (r: Vec<char>)
    requires
        end <= v@.len(),
    ensures
        r@ == v@.subrange(0, end as int),
{
    text::subvec(v, 0, end)
}

fn strip_trailing_parens_exec(v: &Vec<char>) -> (r: Vec<char>)
    ensures
        r@ == strip_trailing_pat(v@, "()"@),
{
    let mut end: usize = v.len();
    proof {
        reveal_strlit("()");
        assert(v@.subrange(0, v@.len() as int) =~= v@);
    }
    while end >= 2 && v[end - 2] == '(' && v[end - 1] == ')'
        invariant
            end <= v@.len(),
            strip_trailing_pat(v@, "()"@) == strip_trailing_pat(
                v@.subrange(0, end as int),
                "()"@,
            ),
        decreases end,
    {
        proof {
            reveal_strlit("()");
            let s = v@.subrange(0, end as int);
            assert(s.subrange(s.len() - 2, s.len() as int) =~= "()"@);
            assert(text::ends_with(s, "()"@));
            assert(s.subrange(0, s.len() - 2) =~= v@.subrange(0, end - 2));
        }
        end -= 2;
    }
    proof {
        reveal_strlit("()");
        let s = v@.subrange(0, end as int);
        if s.len() >= 2 && text::ends_with(s, "()"@) {
            let t = s.subrange(s.len() - 2, s.len() as int);
            assert(t == "()"@);
            assert(t[0] == s[s.len() - 2] && t[1] == s[s.len() - 1]);
            assert("()"@[0] == '(' && "()"@[1] == ')');
        }
        assert(strip_trailing_pat(s, "()"@) == s);
    }
    subvec_full(v, end)
}

/// The segment of `s` after its last `/`, or all of `s` when it has none.
pub open spec fn after_last_slash(s: Seq<char>) -> Seq<char>
    decreases s.len(),
{
    if s.len() == 0 {
        s
    } else if s.last() == '/' {
        Seq::empty()
    } else {
        after_last_slash(s.drop_last()).push(s.last())
    }
}

pub(crate) fn after_last_slash_exec(v: &Vec<char>) -> (r: Vec<char>)
    ensures
        r@ == after_last_slash(v@),
{
    let mut start: usize = v.len();
    proof {
        assert(v@.subrange(0, v@.len() as int) =~= v@);
        assert(v@.subrange(v@.len() as int, v@.len() as int) =~= Seq::<char>::empty());
        assert(after_last_slash(v@) + Seq::<char>::empty() =~= after_last_slash(v@));
    }
    while start > 0 && v[start - 1] != '/'
        invariant
            start <= v@.len(),
            after_last_slash(v@) == after_last_slash(v@.subrange(0, start as int)) + v@.subrange(
                start as int,
                v@.len() as int,
            ),
        decreases start,
    {
        proof {
            let s = v@.subrange(0, start as int);
            assert(s.drop_last() =~= v@.subrange(0, start - 1));
            assert(after_last_slash(s.drop_last()).push(s.last()) + v@.subrange(
                start as int,
                v@.len() as int,
            ) =~= after_last_slash(s.drop_last()) + v@.subrange(start - 1, v@.len() as int));
        }
        start -= 1;
    }
    proof {
        let s = v@.subrange(0, start as int);
        assert(after_last_slash(s) =~= Seq::<char>::empty());
        assert(after_last_slash(v@) =~= v@.subrange(start as int, v@.len() as int));
    }
    text::subvec(v, start, v.len())
}

/// The cleaned display name of a symbol URI: trailing `.`/`()`/`#`/`/`
/// stripped in that order, the last `/`-segment taken, backticks removed,
/// `<constructor>` renamed, and the empty result replaced by `unknown`.
pub open spec fn clean_name_of(uri: Seq<char>) -> Seq<char> {
    let t1 = strip_trailing_char(uri, '.');
    let t2 = strip_trailing_pat(t1, "()"@);
    let t3 = strip_trailing_char(t2, '#');
    let t4 = strip_trailing_char(t3, '/');
    let seg = after_last_slash(t4);
    let clean = seg.filter(|c: char| c != '`');
    if clean == "<constructor>"@ {
        "constructor"@
    } else if clean.len() == 0 {
        "unknown"@
    } else {
        clean
    }
}

fn filter_backticks(v: &Vec<char>) -> (r: Vec<char>)
    ensures
        r@ == v@.filter(|c: char| c != '`'),
{
    let mut r: Vec<char> = Vec::new();
    let mut i: usize = 0;
    while i < v.len()
        invariant
            i <= v@.len(),
            r@ == v@.subrange(0, i as int).filter(|c: char| c != '`'),
        decreases v.len() - i,
    {
        proof {
            reveal(Seq::filter);
            let pre = v@.subrange(0, i as int);
            assert(v@.subrange(0, i + 1) =~= pre.push(v@[i as int]));
            assert(v@.subrange(0, i + 1).drop_last() =~= pre);
        }
        let c = v[i];
        if c != '`' {
            r.push(c);
        }
        i += 1;
    }
    proof {
        assert(v@.subrange(0, v@.len() as int) =~= v@);
    }
    r
}

/// Extract the display name from a symbol URI.
pub fn extract_name_from_uri(uri: &str) -> (r: String)
    ensures
        r@ == clean_name_of(uri@),
{
    let v = text::chars_of(uri);
    let t1 = strip_trailing_char_exec(&v, '.');
    let t2 = strip_trailing_parens_exec(&t1);
    let t3 = strip_trailing_char_exec(&t2, '#');
    let t4 = strip_trailing_char_exec(&t3, '/');
    let seg = after_last_slash_exec(&t4);
    let clean = filter_backticks(&seg);
    if text::chars_eq(&clean, &text::chars_of("<constructor>")) {
        let r = text::chars_of("constructor");
        text::string_from_chars(&r)
    } else if clean.len() == 0 {
        let r = text::chars_of("unknown");
        text::string_from_chars(&r)
    } else {
        text::string_from_chars(&clean)
    }
}

/// Kind inferred from the shape of a symbol URI alone.
pub open spec fn inferred_kind_of(uri: Seq<char>) -> crate::model::ScipSymbolKind {
    if text::ends_with(uri, "()."@) || text::contains_sub(uri, "#<constructor>"@) {
        crate::model::ScipSymbolKind::Method
    } else if uri.len() > 0 && uri.last() == '#' {
        crate::model::ScipSymbolKind::Class
    } else if text::contains_sub(uri, "/match"@) || text::contains_sub(uri, "function"@) {
        crate::model::ScipSymbolKind::Function
    } else if uri.len() > 0 && uri.last() == '/' {
        crate::model::ScipSymbolKind::File
    } else {
        crate::model::ScipSymbolKind::Variable
    }
}

/// Infer a node kind from the shape of a symbol URI.
pub fn infer_kind_from_uri(uri: &str) -> (r: crate::model::ScipSymbolKind)
    ensures
        r == inferred_kind_of(uri@),
{
    let v = text::chars_of(uri);
    if text::ends_with_exec(&v, &text::chars_of("().")) || text::contains_sub_exec(
        &v,
        &text::chars_of("#<constructor>"),
    ) {
        crate::model::ScipSymbolKind::Method
    } else if v.len() > 0 && v[v.len() - 1] == '#' {
        crate::model::ScipSymbolKind::Class
    } else if text::contains_sub_exec(&v, &text::chars_of("/match")) || text::contains_sub_exec(
        &v,
        &text::chars_of("function"),
    ) {
        crate::model::ScipSymbolKind::Function
    } else if v.len() > 0 && v[v.len() - 1] == '/' {
        crate::model::ScipSymbolKind::File
    } else {
        crate::model::ScipSymbolKind::Variable
    }
}

/// URI separators that delimit a parent prefix.
pub open spec fn is_sep(c: char) -> bool {
    c == '#' || c == '.' || c == '/' || c == '`'
}

/// The parent prefix delimited by the last separator of `s`: up to and
/// including a `#`, up to but excluding any other separator; `None` when `s`
/// has no separator.
pub open spec fn parent_prefix(s: Seq<char>) -> Option<Seq<char>>
    decreases s.len(),
{
    if s.len() == 0 {
        None
    } else if is_sep(s.last()) {
        if s.last() == '#' {
            Some(s)
        } else {
            Some(s.drop_last())
        }
    } else {
        parent_prefix(s.drop_last())
    }
}

/// The raw identifier of the parent of a symbol URI, resolved textually: one
/// trailing `.` is dropped, then the nearest separator among `#`, `.`, `/`
/// and backtick delimits the prefix, which must be non-empty and shorter than
/// the whole URI.
pub open spec fn parent_id_of(uri: Seq<char>) -> Option<u64> {
    let p = if uri.len() > 0 && uri.last() == '.' {
        uri.drop_last()
    } else {
        uri
    };
    match parent_prefix(p) {
        Some(pre) => if pre.len() > 0 && pre.len() < uri.len() {
            Some(anchor::uri_hash(pre))
        } else {
            None
        },
        None => None,
    }
}

fn sep_exec(c: char) -> (b: bool)
    ensures
        b == is_sep(c),
{
    c == '#' || c == '.' || c == '/' || c == '`'
}

/// Resolve the raw identifier of a symbol URI's lexical parent.
pub fn extract_parent_id(symbol: &str) -> (r: Option<u64>)
    ensures
        r == parent_id_of(symbol@),
{
    let v = text::chars_of(symbol);
    let p: Vec<char> = if v.len() > 0 && v[v.len() - 1] == '.' {
        text::subvec(&v, 0, v.len() - 1)
    } else {
        text::subvec(&v, 0, v.len())
    };
    proof {
        if v@.len() > 0 && v@.last() == '.' {
            assert(p@ =~= v@.drop_last());
        } else {
            assert(p@ =~= v@);
        }
    }
    let mut i: usize = p.len();
    proof {
        assert(p@.subrange(0, p@.len() as int) =~= p@);
    }
    while i > 0
        invariant
            i <= p@.len(),
            parent_prefix(p@) == parent_prefix(p@.subrange(0, i as int)),
            v@ == symbol@,
            p@ == (if symbol@.len() > 0 && symbol@.last() == '.' {
                symbol@.drop_last()
            } else {
                symbol@
            }),
        decreases i,
    {
        let c = p[i - 1];
        proof {
            let s = p@.subrange(0, i as int);
            assert(s.last() == c);
            assert(s.drop_last() =~= p@.subrange(0, i - 1));
        }
        if sep_exec(c) {
            let end_idx = if c == '#' {
                i
            } else {
                i - 1
            };
            proof {
                let s = p@.subrange(0, i as int);
                if c == '#' {
                    assert(parent_prefix(p@) == Some(s));
                } else {
                    assert(parent_prefix(p@) == Some(s.drop_last()));
                }
                assert(s.subrange(0, end_idx as int) =~= p@.subrange(0, end_idx as int));
            }
            let pre = text::subvec(&p, 0, end_idx);
            proof {
                let s = p@.subrange(0, i as int);
                if c == '#' {
                    assert(pre@ =~= s);
                } else {
                    assert(pre@ =~= s.drop_last());
                }
            }
            proof {
                let p_spec = if symbol@.len() > 0 && symbol@.last() == '.' {
                    symbol@.drop_last()
                } else {
                    symbol@
                };
                assert(p@ == p_spec);
                assert(parent_prefix(p_spec) == Some(pre@));
            }
            if pre.len() > 0 && pre.len() < v.len() {
                let pre_s = text::string_from_chars(&pre);
                let h = anchor::hash_uri(pre_s.as_str());
                proof {
                    assert(h == anchor::uri_hash(pre@));
                    assert(parent_id_of(symbol@) == Some(h));
                }
                return Some(h);
            } else {
                proof {
                    assert(parent_id_of(symbol@) is None);
                }
                return None;
            }
        }
        i -= 1;
    }
    proof {
        assert(p@.subrange(0, 0) =~= Seq::<char>::empty());
    }
    None
}

/// Symbol-index kind codes that map onto this library's node kinds; every
/// other code falls back to `Variable`.
pub open spec fn mapped_kind(k: i32) -> crate::model::ScipSymbolKind {
    if k == 7 {
        crate::model::ScipSymbolKind::Class
    } else if k == 26 {
        crate::model::ScipSymbolKind::Method
    } else if k == 17 {
        crate::model::ScipSymbolKind::Function
    } else if k == 61 {
        crate::model::ScipSymbolKind::Variable
    } else if k == 21 {
        crate::model::ScipSymbolKind::Interface
    } else if k == 29 {
        crate::model::ScipSymbolKind::Module
    } else {
        crate::model::ScipSymbolKind::Variable
    }
}

/// Map a raw symbol-index kind code onto a node kind.
pub fn map_kind(k: i32) -> (r: crate::model::ScipSymbolKind)
    ensures
        r == mapped_kind(k),
{
    if k == 7 {
        crate::model::ScipSymbolKind::Class
    } else if k == 26 {
        crate::model::ScipSymbolKind::Method
    } else if k == 17 {
        crate::model::ScipSymbolKind::Function
    } else if k == 61 {
        crate::model::ScipSymbolKind::Variable
    } else if k == 21 {
        crate::model::ScipSymbolKind::Interface
    } else if k == 29 {
        crate::model::ScipSymbolKind::Module
    } else {
        crate::model::ScipSymbolKind::Variable
    }
}

} // verus!
