//! The parser of queries: `SELECT`, `FROM`, `LEFT JOIN`, `WHERE`,
//! `ORDER BY` and `LIMIT` clauses, paths such as `hr.employees[2].name`,
//! and arithmetic expressions with `COUNT(...)` and `UPPER(...)`.
//!
//! Each `..._at` spec function says what the grammar finds in the text `s`
//! at position `i`: the parsed model and the position after it, or `None`.
//! Keywords are matched without regard to case and end at a character that
//! cannot continue a name; they are not names themselves.
use vstd::prelude::*;

use crate::pqlir_parser::{
    digit_values, digit_values_exec, digits_nat, digits_u64, float_at, float_exec, integer_at,
    integer_exec, is_alnum, is_digit, lemma_ws_end, tag_at, value_at, value_exec, ws_end,
    ws_end_exec, Outcome, Parsed,
};
use crate::sql::clause::{Limit, OrderBy};
use crate::sql::expr::{
    fields_model, lemma_expr_unfold, opt_str, projs_model, AliasedModel, CondExprModel, Expr,
    ExprModel, Func, Sql, SqlModel, WhereCond,
};
use crate::sql::field::{Field, Proj};
use crate::sql::selector::{node_models, NodeModel, Selector, SelectorNode};
use crate::text::string_from_chars;
use crate::value::{lemma_view_unfold, PqlValue, ValueModel};

verus! {

broadcast use {lemma_expr_unfold, lemma_view_unfold};

/// Characters of names: ASCII letters, digits and `_`.
pub open spec fn is_ident_char(c: char) -> bool {
    is_alnum(c) || c == '_'
}

/// The first position at or after `i` that cannot continue a name.
pub open spec fn ident_end(s: Seq<char>, i: int) -> int
    decreases s.len() - i,
{
    if 0 <= i < s.len() && is_ident_char(s[i]) {
        ident_end(s, i + 1)
    } else {
        i
    }
}

/// `c` is the lower-case letter `k` in either case, or `k` itself.
pub open spec fn char_ieq(c: char, k: char) -> bool {
    c == k || ('a' <= k <= 'z' && (c as u32) + 32 == (k as u32))
}

/// `w` is the lower-case word `k`, in any case.
pub open spec fn ieq_word(w: Seq<char>, k: Seq<char>) -> bool {
    w.len() == k.len() && forall|j: int| 0 <= j < k.len() ==> char_ieq(#[trigger] w[j], k[j])
}

/// The keyword `k` (lower case) at `i`, in any case, not followed by a
/// character of a name.
pub open spec fn kw_at(s: Seq<char>, i: int, k: Seq<char>) -> bool {
    &&& 0 <= i
    &&& i + k.len() <= s.len()
    &&& ieq_word(s.subrange(i, i + k.len()), k)
    &&& (i + k.len() == s.len() || !is_ident_char(s[i + k.len()]))
}

/// The keywords of queries.
pub open spec fn keyword(w: Seq<char>) -> bool {
    ||| ieq_word(w, seq!['s', 'e', 'l', 'e', 'c', 't'])
    ||| ieq_word(w, seq!['f', 'r', 'o', 'm'])
    ||| ieq_word(w, seq!['w', 'h', 'e', 'r', 'e'])
    ||| ieq_word(w, seq!['o', 'r', 'd', 'e', 'r'])
    ||| ieq_word(w, seq!['b', 'y'])
    ||| ieq_word(w, seq!['a', 's', 'c'])
    ||| ieq_word(w, seq!['d', 'e', 's', 'c'])
    ||| ieq_word(w, seq!['l', 'i', 'm', 'i', 't'])
    ||| ieq_word(w, seq!['o', 'f', 'f', 's', 'e', 't'])
    ||| ieq_word(w, seq!['l', 'e', 'f', 't'])
    ||| ieq_word(w, seq!['j', 'o', 'i', 'n'])
    ||| ieq_word(w, seq!['l', 'i', 'k', 'e'])
    ||| ieq_word(w, seq!['a', 's'])
}

/// A name at `i`: a run of name characters that is not a keyword.
pub open spec fn ident_at(s: Seq<char>, i: int) -> Option<(Seq<char>, int)> {
    if 0 <= i < s.len() && is_ident_char(s[i]) {
        let e = ident_end(s, i);
        if i < e <= s.len() && !keyword(s.subrange(i, e)) {
            Some((s.subrange(i, e), e))
        } else {
            None
        }
    } else {
        None
    }
}

/// The run of name characters from `i` stops only at a character that is
/// not an ASCII letter, digit or `_`.
proof fn lemma_ident_end_run(s: Seq<char>, i: int)
    requires
        0 <= i <= s.len(),
    ensures
        i <= ident_end(s, i) <= s.len(),
        forall|k: int|
            i <= k < ident_end(s, i) ==> ('a' <= #[trigger] s[k] <= 'z') || ('A' <= s[k] <= 'Z')
                || ('0' <= s[k] <= '9') || s[k] == '_',
        ident_end(s, i) < s.len() ==> !(('a' <= s[ident_end(s, i)] <= 'z') || ('A' <= s[ident_end(
            s,
            i,
        )] <= 'Z') || ('0' <= s[ident_end(s, i)] <= '9') || s[ident_end(s, i)] == '_'),
    decreases s.len() - i,
{
    if i < s.len() && is_ident_char(s[i]) {
        lemma_ident_end_run(s, i + 1);
    }
}

/// A name is the longest run of ASCII letters, digits and `_` at its start:
/// a name found at `i` is the text from `i` to its end, every character of
/// it is a letter, a digit or `_`, and the character after it (if any) is
/// none of these; a run that starts at such a character and is not a
/// keyword is found whole.
pub proof fn lemma_ident_whole(s: Seq<char>, i: int)
    requires
        0 <= i <= s.len(),
    ensures
        ident_at(s, i) matches Some((n, e)) ==> (i < e <= s.len() && n == s.subrange(i, e) && (
        forall|k: int|
            i <= k < e ==> ('a' <= #[trigger] s[k] <= 'z') || ('A' <= s[k] <= 'Z') || ('0' <= s[k]
                <= '9') || s[k] == '_') && (e < s.len() ==> !(('a' <= s[e] <= 'z') || ('A' <= s[e]
            <= 'Z') || ('0' <= s[e] <= '9') || s[e] == '_'))),
        (i < s.len() && (('a' <= s[i] <= 'z') || ('A' <= s[i] <= 'Z') || ('0' <= s[i] <= '9')
            || s[i] == '_') && !keyword(s.subrange(i, ident_end(s, i)))) ==> ident_at(s, i)
            is Some,
{
    lemma_ident_end_run(s, i);
    if i < s.len() && is_ident_char(s[i]) {
        lemma_ident_end_run(s, i + 1);
    }
}

/// An index `[n]` at `i`.
pub open spec fn index_at(s: Seq<char>, i: int) -> Option<(i64, int)> {
    if 0 <= i < s.len() && s[i] == '[' {
        match integer_at(s, i + 1) {
            Outcome::Success(n, e) => if 0 <= e < s.len() && s[e] == ']' {
                Some((n, e + 1))
            } else {
                None
            },
            _ => None,
        }
    } else {
        None
    }
}

/// A segment of a path at `i`: a name, and an index if one follows.
pub open spec fn segment_at(s: Seq<char>, i: int) -> Option<(Seq<NodeModel>, int)> {
    match ident_at(s, i) {
        None => None,
        Some((w, e)) => match index_at(s, e) {
            Some((n, e2)) => Some((seq![NodeModel::Str(w), NodeModel::Num(n)], e2)),
            None => Some((seq![NodeModel::Str(w)], e)),
        },
    }
}

/// The segments that follow `.` from `j` on, after those in `acc`.
pub open spec fn segments_rest(s: Seq<char>, j: int, acc: Seq<NodeModel>) -> (Seq<NodeModel>, int)
    decreases s.len() - j,
{
    if 0 <= j < s.len() && s[j] == '.' {
        match segment_at(s, j + 1) {
            Some((seg, e)) => if j < e <= s.len() {
                segments_rest(s, e, acc + seg)
            } else {
                (acc, j)
            },
            None => (acc, j),
        }
    } else {
        (acc, j)
    }
}

/// A path at `i`: segments separated by `.`.
pub open spec fn selector_at(s: Seq<char>, i: int) -> Option<(Seq<NodeModel>, int)> {
    match segment_at(s, i) {
        None => None,
        Some((seg, e)) => Some(segments_rest(s, e, seg)),
    }
}

/// The model of a parse result.
pub open spec fn parsed_model<T: View>(r: Option<(T, usize)>) -> Option<(T::V, int)> {
    match r {
        Some((x, e)) => Some((x@, e as int)),
        None => None,
    }
}

fn ident_end_exec(s: &Vec<char>, i: usize) -> (r: usize)
    requires
        i <= s@.len(),
    ensures
        r == ident_end(s@, i as int),
        i <= r <= s@.len(),
    decreases s@.len() - i,
{
    if i < s.len() && (is_alnum_exec(s[i]) || s[i] == '_') {
        ident_end_exec(s, i + 1)
    } else {
        i
    }
}

fn is_alnum_exec(c: char) -> (r: bool)
    ensures
        r == is_alnum(c),
{
    ('0' <= c && c <= '9') || ('a' <= c && c <= 'z') || ('A' <= c && c <= 'Z')
}

fn char_ieq_exec(c: char, k: char) -> (r: bool)
    ensures
        r == char_ieq(c, k),
{
    c == k || ('a' <= k && k <= 'z' && (c as u32) + 32 == (k as u32))
}

/// Whether the text from `i` to `e` is the word `k`, in any case.
fn word_ieq_exec(s: &Vec<char>, i: usize, e: usize, k: &str) -> (r: bool)
    requires
        i <= e <= s@.len(),
    ensures
        r == ieq_word(s@.subrange(i as int, e as int), k@),
{
    let kc = crate::text::chars_of(k);
    if e - i != kc.len() {
        return false;
    }
    let mut j: usize = 0;
    while j < kc.len()
        invariant
            kc@ == k@,
            e - i == kc@.len(),
            i <= e <= s@.len(),
            j <= kc@.len(),
            forall|q: int| 0 <= q < j ==> char_ieq(#[trigger] s@.subrange(i as int, e as int)[q], kc@[q]),
        decreases kc@.len() - j,
    {
        assert(s@.subrange(i as int, e as int)[j as int] == s@[i + j]);
        if !char_ieq_exec(s[i + j], kc[j]) {
            return false;
        }
        j = j + 1;
    }
    true
}

/// Whether the keyword `k` (lower case) is at `i` (see `kw_at`).
fn kw_exec(s: &Vec<char>, i: usize, k: &str) -> (r: bool)
    requires
        i <= s@.len(),
    ensures
        r == kw_at(s@, i as int, k@),
        s@.len() <= usize::MAX,
{
    let _len = s.len();
    let n = crate::text::chars_of(k).len();
    if n > s.len() - i {
        return false;
    }
    if !word_ieq_exec(s, i, i + n, k) {
        return false;
    }
    i + n == s.len() || !(is_alnum_exec(s[i + n]) || s[i + n] == '_')
}

fn keyword_exec(s: &Vec<char>, i: usize, e: usize) -> (r: bool)
    requires
        i <= e <= s@.len(),
    ensures
        r == keyword(s@.subrange(i as int, e as int)),
{
    proof {
        reveal_strlit("select");
        reveal_strlit("from");
        reveal_strlit("where");
        reveal_strlit("order");
        reveal_strlit("by");
        reveal_strlit("asc");
        reveal_strlit("desc");
        reveal_strlit("limit");
        reveal_strlit("offset");
        reveal_strlit("left");
        reveal_strlit("join");
        reveal_strlit("like");
        reveal_strlit("as");
    }
    word_ieq_exec(s, i, e, "select") || word_ieq_exec(s, i, e, "from") || word_ieq_exec(
        s,
        i,
        e,
        "where",
    ) || word_ieq_exec(s, i, e, "order") || word_ieq_exec(s, i, e, "by") || word_ieq_exec(
        s,
        i,
        e,
        "asc",
    ) || word_ieq_exec(s, i, e, "desc") || word_ieq_exec(s, i, e, "limit") || word_ieq_exec(
        s,
        i,
        e,
        "offset",
    ) || word_ieq_exec(s, i, e, "left") || word_ieq_exec(s, i, e, "join") || word_ieq_exec(
        s,
        i,
        e,
        "like",
    ) || word_ieq_exec(s, i, e, "as")
}

/// Parses a name at `i` (see `ident_at`).
fn ident_exec(s: &Vec<char>, i: usize) -> (r: Option<(String, usize)>)
    requires
        i <= s@.len(),
    ensures
        parsed_model(r) == ident_at(s@, i as int),
        r matches Some((_, e)) ==> i < e <= s@.len(),
{
    if i < s.len() && (is_alnum_exec(s[i]) || s[i] == '_') {
        let e = ident_end_exec(s, i);
        if i < e && !keyword_exec(s, i, e) {
            let w = string_from_chars(vstd::slice::slice_subrange(s.as_slice(), i, e));
            Some((w, e))
        } else {
            None
        }
    } else {
        None
    }
}

fn index_exec(s: &Vec<char>, i: usize) -> (r: Option<(i64, usize)>)
    requires
        i <= s@.len(),
    ensures
        match r {
            Some((n, e)) => index_at(s@, i as int) == Some((n, e as int)) && i < e <= s@.len(),
            None => index_at(s@, i as int) is None,
        },
{
    if i < s.len() && s[i] == '[' {
        match integer_exec(s, i + 1) {
            Parsed::Success(n, e) => {
                if e < s.len() && s[e] == ']' {
                    Some((n, e + 1))
                } else {
                    None
                }
            },
            _ => None,
        }
    } else {
        None
    }
}

fn segment_exec(s: &Vec<char>, i: usize) -> (r: Option<(Vec<SelectorNode>, usize)>)
    requires
        i <= s@.len(),
    ensures
        match r {
            Some((v, e)) => segment_at(s@, i as int) == Some((node_models(v@), e as int)) && i < e
                <= s@.len(),
            None => segment_at(s@, i as int) is None,
        },
{
    match ident_exec(s, i) {
        None => None,
        Some((w, e)) => {
            let mut v: Vec<SelectorNode> = Vec::new();
            let ghost wm = w@;
            v.push(SelectorNode::String(w));
            match index_exec(s, e) {
                Some((n, e2)) => {
                    v.push(SelectorNode::Number(n));
                    assert(node_models(v@) =~= seq![NodeModel::Str(wm), NodeModel::Num(n)]);
                    Some((v, e2))
                },
                None => {
                    assert(node_models(v@) =~= seq![NodeModel::Str(wm)]);
                    Some((v, e))
                },
            }
        },
    }
}

/// Parses a path at `i` (see `selector_at`).
pub fn selector_exec(s: &Vec<char>, i: usize) -> (r: Option<(Selector, usize)>)
    requires
        i <= s@.len(),
    ensures
        parsed_model(r) == selector_at(s@, i as int),
        r matches Some((_, e)) ==> i < e <= s@.len(),
{
    match segment_exec(s, i) {
        None => None,
        Some((first, e)) => {
            let mut data = first;
            let mut j = e;
            loop
                invariant
                    i < j <= s@.len(),
                    segments_rest(s@, e as int, segment_at(s@, i as int)->Some_0.0)
                        == segments_rest(s@, j as int, node_models(data@)),
                ensures
                    i < j <= s@.len(),
                    segments_rest(s@, e as int, segment_at(s@, i as int)->Some_0.0) == (
                        node_models(data@),
                        j as int,
                    ),
                decreases s@.len() - j,
            {
                if j < s.len() && s[j] == '.' {
                    match segment_exec(s, j + 1) {
                        Some((seg, e2)) => {
                            let ghost before = node_models(data@);
                            let ghost sm = node_models(seg@);
                            let mut seg = seg;
                            data.append(&mut seg);
                            assert(node_models(data@) =~= before + sm);
                            j = e2;
                        },
                        None => {
                            break;
                        },
                    }
                } else {
                    break;
                }
            }
            Some((Selector { data }, j))
        },
    }
}


/// After the function name `name` at `i`: optional multispace and `(`; the
/// position after the `(` and the multispace that follows.
pub open spec fn call_open_at(s: Seq<char>, i: int, name: Seq<char>) -> Option<int> {
    if kw_at(s, i, name) {
        let j = ws_end(s, i + name.len());
        if i + name.len() <= j < s.len() && s[j] == '(' {
            Some(ws_end(s, j + 1))
        } else {
            None
        }
    } else {
        None
    }
}

/// After an argument ending at `k`: optional multispace and `)`.
pub open spec fn close_paren_at(s: Seq<char>, k: int) -> Option<int> {
    let m = ws_end(s, k);
    if 0 <= m < s.len() && s[m] == ')' {
        Some(m + 1)
    } else {
        None
    }
}

/// An expression at `i`: `*`, or a sum.
pub open spec fn expr_at(s: Seq<char>, i: int) -> Option<(ExprModel, int)>
    decreases s.len() - i, 6int,
{
    if 0 <= i < s.len() && s[i] == '*' {
        Some((ExprModel::Star, i + 1))
    } else {
        sum_at(s, i)
    }
}

/// Terms joined by `+` and `-`, from the left.
pub open spec fn sum_at(s: Seq<char>, i: int) -> Option<(ExprModel, int)>
    decreases s.len() - i, 5int,
{
    match term_at(s, i) {
        Some((t, e)) => if i <= e <= s.len() {
            Some(sum_rest(s, e, t))
        } else {
            None
        },
        None => None,
    }
}

/// The terms that follow `+` or `-` from `j` on, joined to `acc`.
pub open spec fn sum_rest(s: Seq<char>, j: int, acc: ExprModel) -> (ExprModel, int)
    decreases s.len() - j, 4int,
{
    let k = ws_end(s, j);
    if j <= k < s.len() && (s[k] == '+' || s[k] == '-') {
        let k2 = ws_end(s, k + 1);
        if j < k2 <= s.len() {
            match term_at(s, k2) {
                Some((t, e)) => if j < e <= s.len() {
                    let next = if s[k] == '+' {
                        ExprModel::Add(Box::new(acc), Box::new(t))
                    } else {
                        ExprModel::Sub(Box::new(acc), Box::new(t))
                    };
                    sum_rest(s, e, next)
                } else {
                    (acc, j)
                },
                None => (acc, j),
            }
        } else {
            (acc, j)
        }
    } else {
        (acc, j)
    }
}

/// Factors joined by `*`, `/` and `%`, from the left.
pub open spec fn term_at(s: Seq<char>, i: int) -> Option<(ExprModel, int)>
    decreases s.len() - i, 3int,
{
    match factor_at(s, i) {
        Some((f, e)) => if i <= e <= s.len() {
            Some(term_rest(s, e, f))
        } else {
            None
        },
        None => None,
    }
}

/// The factors that follow `*`, `/` or `%` from `j` on, joined to `acc`.
pub open spec fn term_rest(s: Seq<char>, j: int, acc: ExprModel) -> (ExprModel, int)
    decreases s.len() - j, 2int,
{
    let k = ws_end(s, j);
    if j <= k < s.len() && (s[k] == '*' || s[k] == '/' || s[k] == '%') {
        let k2 = ws_end(s, k + 1);
        if j < k2 <= s.len() {
            match factor_at(s, k2) {
                Some((f, e)) => if j < e <= s.len() {
                    let next = if s[k] == '*' {
                        ExprModel::Mul(Box::new(acc), Box::new(f))
                    } else if s[k] == '/' {
                        ExprModel::Div(Box::new(acc), Box::new(f))
                    } else {
                        ExprModel::Rem(Box::new(acc), Box::new(f))
                    };
                    term_rest(s, e, next)
                } else {
                    (acc, j)
                },
                None => (acc, j),
            }
        } else {
            (acc, j)
        }
    } else {
        (acc, j)
    }
}

/// An atom, raised to a factor by `^` if one follows (from the right).
pub open spec fn factor_at(s: Seq<char>, i: int) -> Option<(ExprModel, int)>
    decreases s.len() - i, 1int,
{
    match atom_at(s, i) {
        None => None,
        Some((a, e)) => {
            let k = ws_end(s, e);
            if i < e <= k < s.len() && s[k] == '^' {
                let k2 = ws_end(s, k + 1);
                if i < k2 <= s.len() {
                    match factor_at(s, k2) {
                        Some((b, e2)) => Some((ExprModel::Exp(Box::new(a), Box::new(b)), e2)),
                        None => Some((a, e)),
                    }
                } else {
                    Some((a, e))
                }
            } else {
                Some((a, e))
            }
        },
    }
}

/// An expression between `(` and `)`, a call of `COUNT` or `UPPER`, a
/// number, or a path.
pub open spec fn atom_at(s: Seq<char>, i: int) -> Option<(ExprModel, int)>
    decreases s.len() - i, 0int,
{
    if !(0 <= i < s.len()) {
        None
    } else if s[i] == '(' {
        let j = ws_end(s, i + 1);
        if i < j <= s.len() {
            match expr_at(s, j) {
                Some((x, k)) => match close_paren_at(s, k) {
                    Some(e) => Some((x, e)),
                    None => None,
                },
                None => None,
            }
        } else {
            None
        }
    } else if call_open_at(s, i, seq!['c', 'o', 'u', 'n', 't']) is Some {
        let j = call_open_at(s, i, seq!['c', 'o', 'u', 'n', 't'])->Some_0;
        if i < j <= s.len() {
            match expr_at(s, j) {
                Some((x, k)) => match close_paren_at(s, k) {
                    Some(e) => Some((ExprModel::Count(Box::new(x)), e)),
                    None => None,
                },
                None => None,
            }
        } else {
            None
        }
    } else if call_open_at(s, i, seq!['u', 'p', 'p', 'e', 'r']) is Some {
        let j = call_open_at(s, i, seq!['u', 'p', 'p', 'e', 'r'])->Some_0;
        if i < j <= s.len() {
            match expr_at(s, j) {
                Some((x, k)) => match close_paren_at(s, k) {
                    Some(e) => Some((ExprModel::Upper(Box::new(x)), e)),
                    None => None,
                },
                None => None,
            }
        } else {
            None
        }
    } else {
        match float_at(s, i) {
            Outcome::Success(f, e) => Some((ExprModel::Value(ValueModel::Float(f)), e)),
            _ => match integer_at(s, i) {
                Outcome::Success(n, e) => Some((ExprModel::Value(ValueModel::Int(n)), e)),
                _ => match selector_at(s, i) {
                    Some((p, e)) => Some((ExprModel::Selector(p), e)),
                    None => None,
                },
            },
        }
    }
}

fn call_open_exec(s: &Vec<char>, i: usize, name: &str) -> (r: Option<usize>)
    requires
        i <= s@.len(),
    ensures
        match r {
            Some(j) => call_open_at(s@, i as int, name@) == Some(j as int) && i < j <= s@.len(),
            None => call_open_at(s@, i as int, name@) is None,
        },
{
    let n = crate::text::chars_of(name).len();
    if !kw_exec(s, i, name) {
        return None;
    }
    let len = s.len();
    assert(i + n <= len);
    let j = ws_end_exec(s, i + n);
    if j < s.len() && s[j] == '(' {
        let k = ws_end_exec(s, j + 1);
        Some(k)
    } else {
        None
    }
}

fn close_paren_exec(s: &Vec<char>, k: usize) -> (r: Option<usize>)
    requires
        k <= s@.len(),
    ensures
        match r {
            Some(e) => close_paren_at(s@, k as int) == Some(e as int) && k < e <= s@.len(),
            None => close_paren_at(s@, k as int) is None,
        },
{
    let m = ws_end_exec(s, k);
    if m < s.len() && s[m] == ')' {
        Some(m + 1)
    } else {
        None
    }
}

/// Parses an expression at `i` (see `expr_at`).
pub fn expr_exec(s: &Vec<char>, i: usize) -> (r: Option<(Expr, usize)>)
    requires
        i <= s@.len(),
    ensures
        parsed_model(r) == expr_at(s@, i as int),
        r matches Some((_, e)) ==> i < e <= s@.len(),
    decreases s@.len() - i, 6int,
{
    if i < s.len() && s[i] == '*' {
        Some((Expr::Star, i + 1))
    } else {
        match term_exec(s, i) {
            Some((t, e)) => Some(sum_rest_exec(s, e, t)),
            None => None,
        }
    }
}

fn sum_rest_exec(s: &Vec<char>, j: usize, acc: Expr) -> (r: (Expr, usize))
    requires
        j <= s@.len(),
    ensures
        (r.0@, r.1 as int) == sum_rest(s@, j as int, acc@),
        j <= r.1 <= s@.len(),
    decreases s@.len() - j, 4int,
{
    let k = ws_end_exec(s, j);
    if k < s.len() && (s[k] == '+' || s[k] == '-') {
        let k2 = ws_end_exec(s, k + 1);
        match term_exec(s, k2) {
            Some((t, e)) => {
                let next = if s[k] == '+' {
                    Expr::Add(Box::new(acc), Box::new(t))
                } else {
                    Expr::Sub(Box::new(acc), Box::new(t))
                };
                sum_rest_exec(s, e, next)
            },
            None => (acc, j),
        }
    } else {
        (acc, j)
    }
}

fn term_exec(s: &Vec<char>, i: usize) -> (r: Option<(Expr, usize)>)
    requires
        i <= s@.len(),
    ensures
        parsed_model(r) == term_at(s@, i as int),
        r matches Some((_, e)) ==> i < e <= s@.len(),
    decreases s@.len() - i, 3int,
{
    match factor_exec(s, i) {
        Some((f, e)) => Some(term_rest_exec(s, e, f)),
        None => None,
    }
}

fn term_rest_exec(s: &Vec<char>, j: usize, acc: Expr) -> (r: (Expr, usize))
    requires
        j <= s@.len(),
    ensures
        (r.0@, r.1 as int) == term_rest(s@, j as int, acc@),
        j <= r.1 <= s@.len(),
    decreases s@.len() - j, 2int,
{
    let k = ws_end_exec(s, j);
    if k < s.len() && (s[k] == '*' || s[k] == '/' || s[k] == '%') {
        let k2 = ws_end_exec(s, k + 1);
        match factor_exec(s, k2) {
            Some((f, e)) => {
                let next = if s[k] == '*' {
                    Expr::Mul(Box::new(acc), Box::new(f))
                } else if s[k] == '/' {
                    Expr::Div(Box::new(acc), Box::new(f))
                } else {
                    Expr::Rem(Box::new(acc), Box::new(f))
                };
                term_rest_exec(s, e, next)
            },
            None => (acc, j),
        }
    } else {
        (acc, j)
    }
}

fn factor_exec(s: &Vec<char>, i: usize) -> (r: Option<(Expr, usize)>)
    requires
        i <= s@.len(),
    ensures
        parsed_model(r) == factor_at(s@, i as int),
        r matches Some((_, e)) ==> i < e <= s@.len(),
    decreases s@.len() - i, 1int,
{
    match atom_exec(s, i) {
        None => None,
        Some((a, e)) => {
            let k = ws_end_exec(s, e);
            if k < s.len() && s[k] == '^' {
                let k2 = ws_end_exec(s, k + 1);
                match factor_exec(s, k2) {
                    Some((b, e2)) => Some((Expr::Exp(Box::new(a), Box::new(b)), e2)),
                    None => Some((a, e)),
                }
            } else {
                Some((a, e))
            }
        },
    }
}

fn atom_exec(s: &Vec<char>, i: usize) -> (r: Option<(Expr, usize)>)
    requires
        i <= s@.len(),
    ensures
        parsed_model(r) == atom_at(s@, i as int),
        r matches Some((_, e)) ==> i < e <= s@.len(),
    decreases s@.len() - i, 0int,
{
    proof {
        reveal_strlit("count");
        reveal_strlit("upper");
        assert("count"@ =~= seq!['c', 'o', 'u', 'n', 't']);
        assert("upper"@ =~= seq!['u', 'p', 'p', 'e', 'r']);
    }
    if i >= s.len() {
        return None;
    }
    if s[i] == '(' {
        let j = ws_end_exec(s, i + 1);
        return match expr_exec(s, j) {
            Some((x, k)) => match close_paren_exec(s, k) {
                Some(e) => Some((x, e)),
                None => None,
            },
            None => None,
        };
    }
    if let Some(j) = call_open_exec(s, i, "count") {
        return match expr_exec(s, j) {
            Some((x, k)) => match close_paren_exec(s, k) {
                Some(e) => Some((Expr::Func(Box::new(Func::Count(x))), e)),
                None => None,
            },
            None => None,
        };
    }
    if let Some(j) = call_open_exec(s, i, "upper") {
        return match expr_exec(s, j) {
            Some((x, k)) => match close_paren_exec(s, k) {
                Some(e) => Some((Expr::Func(Box::new(Func::Upper(x))), e)),
                None => None,
            },
            None => None,
        };
    }
    match float_exec(s, i) {
        Parsed::Success(f, e) => Some((Expr::Value(PqlValue::Float(f)), e)),
        _ => match integer_exec(s, i) {
            Parsed::Success(n, e) => Some((Expr::Value(PqlValue::Int(n)), e)),
            _ => match selector_exec(s, i) {
                Some((p, e)) => Some((Expr::Selector(p), e)),
                None => None,
            },
        },
    }
}


/// Characters that a quoted string of a query holds unescaped: ASCII letters
/// and digits, space, tab, `_` and `%`.
pub open spec fn is_sql_plain(c: char) -> bool {
    is_alnum(c) || c == ' ' || c == '\t' || c == '_' || c == '%'
}

/// The end of a string body of a query that starts at `i`, scanned from
/// `j`: plain characters and escapes (`\"`, `\n`, `\\`), up to the first
/// other character; `None` when an escape is broken or the body is empty
/// and not at the end of the text.
pub open spec fn sql_escaped_from(s: Seq<char>, i: int, j: int) -> Option<int>
    decreases s.len() - j,
{
    if j >= s.len() {
        Some(s.len() as int)
    } else if is_sql_plain(s[j]) {
        sql_escaped_from(s, i, j + 1)
    } else if s[j] == '\\' {
        if j + 1 >= s.len() {
            None
        } else if s[j + 1] == '"' || s[j + 1] == 'n' || s[j + 1] == '\\' {
            sql_escaped_from(s, i, j + 2)
        } else {
            None
        }
    } else if j == i {
        None
    } else {
        Some(j)
    }
}

/// A string of a query between `"` or `'` quotes: the characters between
/// the quotes as written.
pub open spec fn sql_string_at(s: Seq<char>, i: int) -> Option<(Seq<char>, int)> {
    if 0 <= i < s.len() && (s[i] == '"' || s[i] == '\'') {
        match sql_escaped_from(s, i + 1, i + 1) {
            Some(e) => if i + 1 <= e < s.len() && s[e] == s[i] {
                Some((s.subrange(i + 1, e), e + 1))
            } else {
                None
            },
            None => None,
        }
    } else {
        None
    }
}

fn sql_escaped_exec(s: &Vec<char>, i: usize) -> (r: Option<usize>)
    requires
        i <= s@.len(),
    ensures
        match r {
            Some(e) => sql_escaped_from(s@, i as int, i as int) == Some(e as int) && i <= e
                <= s@.len(),
            None => sql_escaped_from(s@, i as int, i as int) is None,
        },
{
    let mut j = i;
    while j < s.len()
        invariant
            i <= j <= s@.len(),
            sql_escaped_from(s@, i as int, i as int) == sql_escaped_from(s@, i as int, j as int),
        decreases s@.len() - j,
    {
        let c = s[j];
        if is_alnum_exec(c) || c == ' ' || c == '\t' || c == '_' || c == '%' {
            j = j + 1;
        } else if c == '\\' {
            if j + 1 >= s.len() {
                return None;
            }
            let d = s[j + 1];
            if d == '"' || d == 'n' || d == '\\' {
                j = j + 2;
            } else {
                return None;
            }
        } else if j == i {
            return None;
        } else {
            return Some(j);
        }
    }
    Some(s.len())
}

fn sql_string_exec(s: &Vec<char>, i: usize) -> (r: Option<(String, usize)>)
    requires
        i <= s@.len(),
    ensures
        parsed_model(r) == sql_string_at(s@, i as int),
        r matches Some((_, e)) ==> i < e <= s@.len(),
{
    if i < s.len() && (s[i] == '"' || s[i] == '\'') {
        match sql_escaped_exec(s, i + 1) {
            Some(e) => {
                if e < s.len() && s[e] == s[i] {
                    let body = vstd::slice::slice_subrange(s.as_slice(), i + 1, e);
                    Some((string_from_chars(body), e + 1))
                } else {
                    None
                }
            },
            None => None,
        }
    } else {
        None
    }
}

/// An alias after `k`: `AS` and a name, or (where `as_optional`) a name
/// alone.
pub open spec fn alias_after(s: Seq<char>, k: int, as_optional: bool) -> Option<(Seq<char>, int)> {
    let m = ws_end(s, k);
    if kw_at(s, m, seq!['a', 's']) {
        ident_at(s, ws_end(s, m + 2))
    } else if as_optional {
        ident_at(s, m)
    } else {
        None
    }
}

/// A projection at `i`: an expression, with an alias if `AS name` follows.
pub open spec fn proj_at(s: Seq<char>, i: int) -> Option<(AliasedModel, int)> {
    match expr_at(s, i) {
        None => None,
        Some((e, k)) => match alias_after(s, k, false) {
            Some((a, e2)) => Some(((e, Some(a)), e2)),
            None => Some(((e, None), k)),
        },
    }
}

/// A source at `i`: a PartiQL value or a path, with an alias if one
/// follows (with or without `AS`).
pub open spec fn field_at(s: Seq<char>, i: int) -> Option<(AliasedModel, int)> {
    let src = match value_at(s, i) {
        Outcome::Success(v, e) => Some((ExprModel::Value(v), e)),
        _ => match selector_at(s, i) {
            Some((p, e)) => Some((ExprModel::Selector(p), e)),
            None => None,
        },
    };
    match src {
        None => None,
        Some((x, k)) => match alias_after(s, k, true) {
            Some((a, e2)) => Some(((x, Some(a)), e2)),
            None => Some(((x, None), k)),
        },
    }
}

/// The items that follow `,` from `j` on, after those in `acc`; items are
/// projections when `projs`, else sources.
pub open spec fn items_rest(s: Seq<char>, j: int, acc: Seq<AliasedModel>, projs: bool) -> (
    Seq<AliasedModel>,
    int,
)
    decreases s.len() - j,
{
    let k = ws_end(s, j);
    if j <= k < s.len() && s[k] == ',' {
        let k2 = ws_end(s, k + 1);
        let item = if projs {
            proj_at(s, k2)
        } else {
            field_at(s, k2)
        };
        match item {
            Some((x, e)) => if j < e <= s.len() {
                items_rest(s, e, acc.push(x), projs)
            } else {
                (acc, j)
            },
            None => (acc, j),
        }
    } else {
        (acc, j)
    }
}

/// A list of items at `i`, separated by `,`.
#[verifier::opaque]
pub open spec fn items_at(s: Seq<char>, i: int, projs: bool) -> Option<(Seq<AliasedModel>, int)> {
    let first = if projs {
        proj_at(s, i)
    } else {
        field_at(s, i)
    };
    match first {
        Some((x, e)) => Some(items_rest(s, e, seq![x], projs)),
        None => None,
    }
}

/// `SELECT` and its projections.
#[verifier::opaque]
pub open spec fn select_at(s: Seq<char>, i: int) -> Option<(Seq<AliasedModel>, int)> {
    if kw_at(s, i, seq!['s', 'e', 'l', 'e', 'c', 't']) {
        items_at(s, ws_end(s, i + 6), true)
    } else {
        None
    }
}

/// `FROM` and its sources.
#[verifier::opaque]
pub open spec fn from_at(s: Seq<char>, i: int) -> Option<(Seq<AliasedModel>, int)> {
    if kw_at(s, i, seq!['f', 'r', 'o', 'm']) {
        items_at(s, ws_end(s, i + 4), false)
    } else {
        None
    }
}

/// `LEFT JOIN` and its sources.
#[verifier::opaque]
pub open spec fn left_join_at(s: Seq<char>, i: int) -> Option<(Seq<AliasedModel>, int)> {
    if kw_at(s, i, seq!['l', 'e', 'f', 't']) {
        let j = ws_end(s, i + 4);
        if kw_at(s, j, seq!['j', 'o', 'i', 'n']) {
            items_at(s, ws_end(s, j + 4), false)
        } else {
            None
        }
    } else {
        None
    }
}

/// `WHERE`, an expression, and `= value` or `LIKE 'pattern'`.
#[verifier::opaque]
pub open spec fn where_at(s: Seq<char>, i: int) -> Option<(CondExprModel, int)> {
    if kw_at(s, i, seq!['w', 'h', 'e', 'r', 'e']) {
        match expr_at(s, ws_end(s, i + 5)) {
            None => None,
            Some((e, k)) => {
                let m = ws_end(s, k);
                if 0 <= m < s.len() && s[m] == '=' {
                    match sql_string_at(s, ws_end(s, m + 1)) {
                        Some((t, e2)) => Some((CondExprModel::Eq(e, ValueModel::Str(t)), e2)),
                        None => match value_at(s, m + 1) {
                            Outcome::Success(v, e2) => Some((CondExprModel::Eq(e, v), e2)),
                            _ => None,
                        },
                    }
                } else if kw_at(s, m, seq!['l', 'i', 'k', 'e']) {
                    match sql_string_at(s, ws_end(s, m + 4)) {
                        Some((t, e2)) => Some((CondExprModel::Like(e, t), e2)),
                        None => None,
                    }
                } else {
                    None
                }
            },
        }
    } else {
        None
    }
}

/// `ORDER BY name`, then `ASC` (the default) or `DESC`.
#[verifier::opaque]
pub open spec fn orderby_at(s: Seq<char>, i: int) -> Option<((Seq<char>, bool), int)> {
    if kw_at(s, i, seq!['o', 'r', 'd', 'e', 'r']) {
        let j = ws_end(s, i + 5);
        if kw_at(s, j, seq!['b', 'y']) {
            match ident_at(s, ws_end(s, j + 2)) {
                None => None,
                Some((label, e)) => {
                    let m = ws_end(s, e);
                    if kw_at(s, m, seq!['a', 's', 'c']) {
                        Some(((label, true), m + 3))
                    } else if kw_at(s, m, seq!['d', 'e', 's', 'c']) {
                        Some(((label, false), m + 4))
                    } else {
                        Some(((label, true), e))
                    }
                },
            }
        } else {
            None
        }
    } else {
        None
    }
}

/// `LIMIT n`, then `OFFSET m` if it follows (else offset 0); `n` and `m`
/// are not negative.
#[verifier::opaque]
pub open spec fn limit_at(s: Seq<char>, i: int) -> Option<((u64, u64), int)> {
    if kw_at(s, i, seq!['l', 'i', 'm', 'i', 't']) {
        match integer_at(s, ws_end(s, i + 5)) {
            Outcome::Success(n, e) => if n >= 0 {
                let m = ws_end(s, e);
                let off = if kw_at(s, m, seq!['o', 'f', 'f', 's', 'e', 't']) {
                    match integer_at(s, ws_end(s, m + 6)) {
                        Outcome::Success(o, e2) => if o >= 0 {
                            Some((o as u64, e2))
                        } else {
                            None
                        },
                        _ => None,
                    }
                } else {
                    None
                };
                match off {
                    Some((o, e2)) => Some(((n as u64, o), e2)),
                    None => Some(((n as u64, 0u64), e)),
                }
            } else {
                None
            },
            _ => None,
        }
    } else {
        None
    }
}

/// An optional clause: what it found, or `dflt` and the position unchanged.
pub open spec fn or_default<T>(r: Option<(T, int)>, dflt: T, p: int) -> (T, int) {
    match r {
        Some((x, e)) => (x, e),
        None => (dflt, p),
    }
}

/// The clauses in the order `SELECT`, `FROM`, `LEFT JOIN`, `WHERE`,
/// `ORDER BY`, `LIMIT`, taking the whole text; `SELECT` is required, the
/// others are optional.
pub open spec fn query_a(s: Seq<char>) -> Option<SqlModel> {
    let (sel, p1) = or_default(select_at(s, ws_end(s, 0)), Seq::empty(), ws_end(s, 0));
    let (from, p2) = or_default(from_at(s, ws_end(s, p1)), Seq::empty(), ws_end(s, p1));
    let (lj, p3) = or_default(left_join_at(s, ws_end(s, p2)), Seq::empty(), ws_end(s, p2));
    let (wh, p4) = match where_at(s, ws_end(s, p3)) {
        Some((c, e)) => (Some(c), e),
        None => (None, ws_end(s, p3)),
    };
    let (ob, p5) = match orderby_at(s, ws_end(s, p4)) {
        Some((o, e)) => (Some(o), e),
        None => (None, ws_end(s, p4)),
    };
    let (lim, p6) = match limit_at(s, ws_end(s, p5)) {
        Some((l, e)) => (Some(l), e),
        None => (None, ws_end(s, p5)),
    };
    if select_at(s, ws_end(s, 0)) is Some && ws_end(s, p6) == s.len() {
        Some(
            SqlModel {
                select_clause: sel,
                from_clause: from,
                left_join_clause: lj,
                where_clause: wh,
                orderby: ob,
                limit: lim,
            },
        )
    } else {
        None
    }
}

/// The clauses in the order `FROM`, `LEFT JOIN`, `WHERE`, `SELECT`,
/// `ORDER BY`, `LIMIT`, taking the whole text; `SELECT` is required, the
/// others are optional.
pub open spec fn query_b(s: Seq<char>) -> Option<SqlModel> {
    let (from, p1) = or_default(from_at(s, ws_end(s, 0)), Seq::empty(), ws_end(s, 0));
    let (lj, p2) = or_default(left_join_at(s, ws_end(s, p1)), Seq::empty(), ws_end(s, p1));
    let (wh, p3) = match where_at(s, ws_end(s, p2)) {
        Some((c, e)) => (Some(c), e),
        None => (None, ws_end(s, p2)),
    };
    let (sel, p4) = or_default(select_at(s, ws_end(s, p3)), Seq::empty(), ws_end(s, p3));
    let (ob, p5) = match orderby_at(s, ws_end(s, p4)) {
        Some((o, e)) => (Some(o), e),
        None => (None, ws_end(s, p4)),
    };
    let (lim, p6) = match limit_at(s, ws_end(s, p5)) {
        Some((l, e)) => (Some(l), e),
        None => (None, ws_end(s, p5)),
    };
    if select_at(s, ws_end(s, p3)) is Some && ws_end(s, p6) == s.len() {
        Some(
            SqlModel {
                select_clause: sel,
                from_clause: from,
                left_join_clause: lj,
                where_clause: wh,
                orderby: ob,
                limit: lim,
            },
        )
    } else {
        None
    }
}

/// The query that the text `s` writes: its clauses in one of the two
/// orders, the first that takes the whole text.
pub open spec fn sql_spec(s: Seq<char>) -> Option<SqlModel> {
    match query_a(s) {
        Some(q) => Some(q),
        None => query_b(s),
    }
}

fn alias_exec(s: &Vec<char>, k: usize, as_optional: bool) -> (r: Option<(String, usize)>)
    requires
        k <= s@.len(),
    ensures
        parsed_model(r) == alias_after(s@, k as int, as_optional),
        r matches Some((_, e)) ==> k < e <= s@.len(),
{
    proof {
        reveal_strlit("as");
        assert("as"@ =~= seq!['a', 's']);
    }
    let m = ws_end_exec(s, k);
    if kw_exec(s, m, "as") {
        let a = ws_end_exec(s, m + 2);
        ident_exec(s, a)
    } else if as_optional {
        ident_exec(s, m)
    } else {
        None
    }
}

fn proj_exec(s: &Vec<char>, i: usize) -> (r: Option<(Proj, usize)>)
    requires
        i <= s@.len(),
    ensures
        match r {
            Some((p, e)) => proj_at(s@, i as int) == Some(((p.expr@, opt_str(p.alias)), e as int))
                && i < e <= s@.len(),
            None => proj_at(s@, i as int) is None,
        },
{
    match expr_exec(s, i) {
        None => None,
        Some((e, k)) => match alias_exec(s, k, false) {
            Some((a, e2)) => Some((Proj { expr: e, alias: Some(a) }, e2)),
            None => Some((Proj { expr: e, alias: None }, k)),
        },
    }
}

fn field_exec(s: &Vec<char>, i: usize) -> (r: Option<(Field, usize)>)
    requires
        i <= s@.len(),
    ensures
        match r {
            Some((f, e)) => field_at(s@, i as int) == Some(((f.expr@, opt_str(f.alias)), e as int))
                && i < e <= s@.len(),
            None => field_at(s@, i as int) is None,
        },
{
    let src: Option<(Expr, usize)> = match value_exec(s, i) {
        Parsed::Success(v, e) => Some((Expr::Value(v), e)),
        _ => match selector_exec(s, i) {
            Some((p, e)) => Some((Expr::Selector(p), e)),
            None => None,
        },
    };
    match src {
        None => None,
        Some((x, k)) => match alias_exec(s, k, true) {
            Some((a, e2)) => Some((Field { expr: x, alias: Some(a) }, e2)),
            None => Some((Field { expr: x, alias: None }, k)),
        },
    }
}

fn projs_exec(s: &Vec<char>, i: usize) -> (r: Option<(Vec<Proj>, usize)>)
    requires
        i <= s@.len(),
    ensures
        match r {
            Some((v, e)) => items_at(s@, i as int, true) == Some((projs_model(v@), e as int)) && i
                < e <= s@.len(),
            None => items_at(s@, i as int, true) is None,
        },
{
    proof {
        reveal(items_at);
    }
    match proj_exec(s, i) {
        None => None,
        Some((p, e)) => {
            let mut v: Vec<Proj> = Vec::new();
            let ghost pm = (p.expr@, opt_str(p.alias));
            v.push(p);
            assert(projs_model(v@) =~= seq![pm]);
            let mut j = e;
            loop
                invariant
                    i < j <= s@.len(),
                    items_rest(s@, e as int, seq![pm], true) == items_rest(
                        s@,
                        j as int,
                        projs_model(v@),
                        true,
                    ),
                ensures
                    i < j <= s@.len(),
                    items_rest(s@, e as int, seq![pm], true) == (projs_model(v@), j as int),
                decreases s@.len() - j,
            {
                let k = ws_end_exec(s, j);
                if k < s.len() && s[k] == ',' {
                    let k2 = ws_end_exec(s, k + 1);
                    match proj_exec(s, k2) {
                        Some((x, e2)) => {
                            let ghost before = projs_model(v@);
                            let ghost xm = (x.expr@, opt_str(x.alias));
                            v.push(x);
                            assert(projs_model(v@) =~= before.push(xm));
                            j = e2;
                        },
                        None => {
                            break;
                        },
                    }
                } else {
                    break;
                }
            }
            Some((v, j))
        },
    }
}

fn fields_exec(s: &Vec<char>, i: usize) -> (r: Option<(Vec<Field>, usize)>)
    requires
        i <= s@.len(),
    ensures
        match r {
            Some((v, e)) => items_at(s@, i as int, false) == Some((fields_model(v@), e as int)) && i
                < e <= s@.len(),
            None => items_at(s@, i as int, false) is None,
        },
{
    proof {
        reveal(items_at);
    }
    match field_exec(s, i) {
        None => None,
        Some((f, e)) => {
            let mut v: Vec<Field> = Vec::new();
            let ghost fm = (f.expr@, opt_str(f.alias));
            v.push(f);
            assert(fields_model(v@) =~= seq![fm]);
            let mut j = e;
            loop
                invariant
                    i < j <= s@.len(),
                    items_rest(s@, e as int, seq![fm], false) == items_rest(
                        s@,
                        j as int,
                        fields_model(v@),
                        false,
                    ),
                ensures
                    i < j <= s@.len(),
                    items_rest(s@, e as int, seq![fm], false) == (fields_model(v@), j as int),
                decreases s@.len() - j,
            {
                let k = ws_end_exec(s, j);
                if k < s.len() && s[k] == ',' {
                    let k2 = ws_end_exec(s, k + 1);
                    match field_exec(s, k2) {
                        Some((x, e2)) => {
                            let ghost before = fields_model(v@);
                            let ghost xm = (x.expr@, opt_str(x.alias));
                            v.push(x);
                            assert(fields_model(v@) =~= before.push(xm));
                            j = e2;
                        },
                        None => {
                            break;
                        },
                    }
                } else {
                    break;
                }
            }
            Some((v, j))
        },
    }
}


#[verifier::rlimit(40)]
fn select_exec(s: &Vec<char>, i: usize) -> (r: Option<(Vec<Proj>, usize)>)
    requires
        i <= s@.len(),
    ensures
        match r {
            Some((v, e)) => select_at(s@, i as int) == Some((projs_model(v@), e as int)) && i < e
                <= s@.len(),
            None => select_at(s@, i as int) is None,
        },
{
    proof {
        reveal(select_at);
        reveal_strlit("select");
        assert("select"@ =~= seq!['s', 'e', 'l', 'e', 'c', 't']);
    }
    if kw_exec(s, i, "select") {
        projs_exec(s, ws_end_exec(s, i + 6))
    } else {
        None
    }
}

#[verifier::rlimit(40)]
fn from_exec(s: &Vec<char>, i: usize) -> (r: Option<(Vec<Field>, usize)>)
    requires
        i <= s@.len(),
    ensures
        match r {
            Some((v, e)) => from_at(s@, i as int) == Some((fields_model(v@), e as int)) && i < e
                <= s@.len(),
            None => from_at(s@, i as int) is None,
        },
{
    proof {
        reveal(from_at);
        reveal_strlit("from");
        assert("from"@ =~= seq!['f', 'r', 'o', 'm']);
    }
    if kw_exec(s, i, "from") {
        fields_exec(s, ws_end_exec(s, i + 4))
    } else {
        None
    }
}

#[verifier::rlimit(40)]
fn left_join_exec(s: &Vec<char>, i: usize) -> (r: Option<(Vec<Field>, usize)>)
    requires
        i <= s@.len(),
    ensures
        match r {
            Some((v, e)) => left_join_at(s@, i as int) == Some((fields_model(v@), e as int)) && i
                < e <= s@.len(),
            None => left_join_at(s@, i as int) is None,
        },
{
    proof {
        reveal(left_join_at);
        reveal_strlit("left");
        reveal_strlit("join");
        assert("left"@ =~= seq!['l', 'e', 'f', 't']);
        assert("join"@ =~= seq!['j', 'o', 'i', 'n']);
    }
    if kw_exec(s, i, "left") {
        let j = ws_end_exec(s, i + 4);
        if kw_exec(s, j, "join") {
            fields_exec(s, ws_end_exec(s, j + 4))
        } else {
            None
        }
    } else {
        None
    }
}

#[verifier::rlimit(40)]
fn where_exec(s: &Vec<char>, i: usize) -> (r: Option<(WhereCond, usize)>)
    requires
        i <= s@.len(),
    ensures
        match r {
            Some((c, e)) => where_at(s@, i as int) == Some((c@, e as int)) && i < e <= s@.len(),
            None => where_at(s@, i as int) is None,
        },
{
    proof {
        reveal(where_at);
        reveal_strlit("where");
        reveal_strlit("like");
        assert("where"@ =~= seq!['w', 'h', 'e', 'r', 'e']);
        assert("like"@ =~= seq!['l', 'i', 'k', 'e']);
    }
    if !kw_exec(s, i, "where") {
        return None;
    }
    match expr_exec(s, ws_end_exec(s, i + 5)) {
        None => None,
        Some((e, k)) => {
            let m = ws_end_exec(s, k);
            if m < s.len() && s[m] == '=' {
                match sql_string_exec(s, ws_end_exec(s, m + 1)) {
                    Some((t, e2)) => Some(
                        (WhereCond::Eq { expr: e, right: PqlValue::Str(t) }, e2),
                    ),
                    None => match value_exec(s, m + 1) {
                        Parsed::Success(v, e2) => Some((WhereCond::Eq { expr: e, right: v }, e2)),
                        _ => None,
                    },
                }
            } else if kw_exec(s, m, "like") {
                match sql_string_exec(s, ws_end_exec(s, m + 4)) {
                    Some((t, e2)) => Some((WhereCond::Like { expr: e, right: t }, e2)),
                    None => None,
                }
            } else {
                None
            }
        },
    }
}

#[verifier::rlimit(40)]
fn orderby_exec(s: &Vec<char>, i: usize) -> (r: Option<(OrderBy, usize)>)
    requires
        i <= s@.len(),
    ensures
        match r {
            Some((o, e)) => orderby_at(s@, i as int) == Some(((o.label@, o.is_asc), e as int)) && i
                < e <= s@.len(),
            None => orderby_at(s@, i as int) is None,
        },
{
    proof {
        reveal(orderby_at);
        reveal_strlit("order");
        reveal_strlit("by");
        reveal_strlit("asc");
        reveal_strlit("desc");
        assert("order"@ =~= seq!['o', 'r', 'd', 'e', 'r']);
        assert("by"@ =~= seq!['b', 'y']);
        assert("asc"@ =~= seq!['a', 's', 'c']);
        assert("desc"@ =~= seq!['d', 'e', 's', 'c']);
    }
    if !kw_exec(s, i, "order") {
        return None;
    }
    let j = ws_end_exec(s, i + 5);
    if !kw_exec(s, j, "by") {
        return None;
    }
    match ident_exec(s, ws_end_exec(s, j + 2)) {
        None => None,
        Some((label, e)) => {
            let m = ws_end_exec(s, e);
            if kw_exec(s, m, "asc") {
                Some((OrderBy { label, is_asc: true }, m + 3))
            } else if kw_exec(s, m, "desc") {
                Some((OrderBy { label, is_asc: false }, m + 4))
            } else {
                Some((OrderBy { label, is_asc: true }, e))
            }
        },
    }
}

#[verifier::rlimit(40)]
fn limit_exec(s: &Vec<char>, i: usize) -> (r: Option<(Limit, usize)>)
    requires
        i <= s@.len(),
    ensures
        match r {
            Some((l, e)) => limit_at(s@, i as int) == Some(((l.limit, l.offset), e as int)) && i < e
                <= s@.len(),
            None => limit_at(s@, i as int) is None,
        },
{
    proof {
        reveal(limit_at);
        reveal_strlit("limit");
        reveal_strlit("offset");
        assert("limit"@ =~= seq!['l', 'i', 'm', 'i', 't']);
        assert("offset"@ =~= seq!['o', 'f', 'f', 's', 'e', 't']);
    }
    if !kw_exec(s, i, "limit") {
        return None;
    }
    match integer_exec(s, ws_end_exec(s, i + 5)) {
        Parsed::Success(n, e) => {
            if n < 0 {
                return None;
            }
            let m = ws_end_exec(s, e);
            let mut off: Option<(u64, usize)> = None;
            if kw_exec(s, m, "offset") {
                match integer_exec(s, ws_end_exec(s, m + 6)) {
                    Parsed::Success(o, e2) => {
                        if o >= 0 {
                            off = Some((o as u64, e2));
                        }
                    },
                    _ => {},
                }
            }
            match off {
                Some((o, e2)) => Some((Limit { limit: n as u64, offset: o }, e2)),
                None => Some((Limit { limit: n as u64, offset: 0 }, e)),
            }
        },
        _ => None,
    }
}


fn projs_or_empty(r: Option<(Vec<Proj>, usize)>, p: usize) -> (out: (Vec<Proj>, usize))
    ensures
        (projs_model(out.0@), out.1 as int) == or_default(
            match r {
                Some((v, e)) => Some((projs_model(v@), e as int)),
                None => None,
            },
            Seq::empty(),
            p as int,
        ),
{
    match r {
        Some((v, e)) => (v, e),
        None => {
            let v: Vec<Proj> = Vec::new();
            assert(projs_model(v@) =~= Seq::<AliasedModel>::empty());
            (v, p)
        },
    }
}

fn fields_or_empty(r: Option<(Vec<Field>, usize)>, p: usize) -> (out: (Vec<Field>, usize))
    ensures
        (fields_model(out.0@), out.1 as int) == or_default(
            match r {
                Some((v, e)) => Some((fields_model(v@), e as int)),
                None => None,
            },
            Seq::empty(),
            p as int,
        ),
{
    match r {
        Some((v, e)) => (v, e),
        None => {
            let v: Vec<Field> = Vec::new();
            assert(fields_model(v@) =~= Seq::<AliasedModel>::empty());
            (v, p)
        },
    }
}

fn query_a_exec(s: &Vec<char>) -> (r: Option<Sql>)
    ensures
        match r {
            Some(q) => query_a(s@) == Some(q@),
            None => query_a(s@) is None,
        },
{
    let p0 = ws_end_exec(s, 0);
    let sel_r = select_exec(s, p0);
    let has_select = sel_r.is_some();
    let (sel, p1) = projs_or_empty(sel_r, p0);
    let q1 = ws_end_exec(s, p1);
    let (from, p2) = fields_or_empty(from_exec(s, q1), q1);
    let q2 = ws_end_exec(s, p2);
    let (lj, p3) = fields_or_empty(left_join_exec(s, q2), q2);
    let q3 = ws_end_exec(s, p3);
    let (wh, p4) = match where_exec(s, q3) {
        Some((c, e)) => (Some(Box::new(c)), e),
        None => (None, q3),
    };
    let q4 = ws_end_exec(s, p4);
    let (ob, p5) = match orderby_exec(s, q4) {
        Some((o, e)) => (Some(o), e),
        None => (None, q4),
    };
    let q5 = ws_end_exec(s, p5);
    let (lim, p6) = match limit_exec(s, q5) {
        Some((l, e)) => (Some(l), e),
        None => (None, q5),
    };
    if has_select && ws_end_exec(s, p6) == s.len() {
        Some(
            Sql {
                select_clause: sel,
                from_clause: from,
                left_join_clause: lj,
                where_clause: wh,
                orderby: ob,
                limit: lim,
            },
        )
    } else {
        None
    }
}

fn query_b_exec(s: &Vec<char>) -> (r: Option<Sql>)
    ensures
        match r {
            Some(q) => query_b(s@) == Some(q@),
            None => query_b(s@) is None,
        },
{
    let p0 = ws_end_exec(s, 0);
    let (from, p1) = fields_or_empty(from_exec(s, p0), p0);
    let q1 = ws_end_exec(s, p1);
    let (lj, p2) = fields_or_empty(left_join_exec(s, q1), q1);
    let q2 = ws_end_exec(s, p2);
    let (wh, p3) = match where_exec(s, q2) {
        Some((c, e)) => (Some(Box::new(c)), e),
        None => (None, q2),
    };
    let q3 = ws_end_exec(s, p3);
    let sel_r = select_exec(s, q3);
    let has_select = sel_r.is_some();
    let (sel, p4) = projs_or_empty(sel_r, q3);
    let q4 = ws_end_exec(s, p4);
    let (ob, p5) = match orderby_exec(s, q4) {
        Some((o, e)) => (Some(o), e),
        None => (None, q4),
    };
    let q5 = ws_end_exec(s, p5);
    let (lim, p6) = match limit_exec(s, q5) {
        Some((l, e)) => (Some(l), e),
        None => (None, q5),
    };
    if has_select && ws_end_exec(s, p6) == s.len() {
        Some(
            Sql {
                select_clause: sel,
                from_clause: from,
                left_join_clause: lj,
                where_clause: wh,
                orderby: ob,
                limit: lim,
            },
        )
    } else {
        None
    }
}

/// Why a text is not a query.
#[derive(Debug, Clone, Copy, PartialEq, Eq)]
pub enum SqlError {
    /// The text does not follow the grammar of queries.
    Syntax,
}

/// The query that `input` writes (see `sql_spec`).
pub fn sql(input: &str) -> (r: Result<Sql, SqlError>)
    ensures
        match sql_spec(input@) {
            Some(q) => r is Ok && r->Ok_0@ == q,
            None => r == Err::<Sql, SqlError>(SqlError::Syntax),
        },
{
    let s = crate::text::chars_of(input);
    match query_a_exec(&s) {
        Some(q) => Ok(q),
        None => match query_b_exec(&s) {
            Some(q) => Ok(q),
            None => Err(SqlError::Syntax),
        },
    }
}

/// The path at the start of `input` and the number of characters it
/// takes (see `selector_at`).
pub fn parse_selector(input: &str) -> (r: Option<(usize, Selector)>)
    ensures
        match r {
            Some((e, p)) => selector_at(input@, 0) == Some((p@, e as int)),
            None => selector_at(input@, 0) is None,
        },
{
    let s = crate::text::chars_of(input);
    match selector_exec(&s, 0) {
        Some((p, e)) => Some((e, p)),
        None => None,
    }
}

/// The expression at the start of `input` and the number of characters it
/// takes (see `expr_at`).
pub fn parse_expr(input: &str) -> (r: Option<(usize, Expr)>)
    ensures
        match r {
            Some((e, x)) => expr_at(input@, 0) == Some((x@, e as int)),
            None => expr_at(input@, 0) is None,
        },
{
    let s = crate::text::chars_of(input);
    match expr_exec(&s, 0) {
        Some((x, e)) => Some((e, x)),
        None => None,
    }
}

/// The projection (an expression, then `AS` and a name, optional) at the
/// start of `input` and the number of characters it takes (see `proj_at`).
pub fn parse_proj(input: &str) -> (r: Option<(usize, Proj)>)
    ensures
        match r {
            Some((e, p)) => proj_at(input@, 0) == Some(((p.expr@, opt_str(p.alias)), e as int)),
            None => proj_at(input@, 0) is None,
        },
{
    let s = crate::text::chars_of(input);
    match proj_exec(&s, 0) {
        Some((p, e)) => Some((e, p)),
        None => None,
    }
}

/// The source (a value or a path, then an alias, optional) at the start of
/// `input` and the number of characters it takes (see `field_at`).
pub fn parse_field(input: &str) -> (r: Option<(usize, Field)>)
    ensures
        match r {
            Some((e, f)) => field_at(input@, 0) == Some(((f.expr@, opt_str(f.alias)), e as int)),
            None => field_at(input@, 0) is None,
        },
{
    let s = crate::text::chars_of(input);
    match field_exec(&s, 0) {
        Some((f, e)) => Some((e, f)),
        None => None,
    }
}

/// The `SELECT` clause at the start of `input` and the number of
/// characters it takes (see `select_at`).
pub fn select(input: &str) -> (r: Option<(usize, Vec<Proj>)>)
    ensures
        match r {
            Some((e, v)) => select_at(input@, 0) == Some((projs_model(v@), e as int)),
            None => select_at(input@, 0) is None,
        },
{
    let s = crate::text::chars_of(input);
    match select_exec(&s, 0) {
        Some((v, e)) => Some((e, v)),
        None => None,
    }
}

/// The `FROM` clause at the start of `input` and the number of characters
/// it takes (see `from_at`).
pub fn parse_from_clause(input: &str) -> (r: Option<(usize, Vec<Field>)>)
    ensures
        match r {
            Some((e, v)) => from_at(input@, 0) == Some((fields_model(v@), e as int)),
            None => from_at(input@, 0) is None,
        },
{
    let s = crate::text::chars_of(input);
    match from_exec(&s, 0) {
        Some((v, e)) => Some((e, v)),
        None => None,
    }
}

/// The `LEFT JOIN` clause at the start of `input` and the number of
/// characters it takes (see `left_join_at`).
pub fn parse_left_join(input: &str) -> (r: Option<(usize, Vec<Field>)>)
    ensures
        match r {
            Some((e, v)) => left_join_at(input@, 0) == Some((fields_model(v@), e as int)),
            None => left_join_at(input@, 0) is None,
        },
{
    let s = crate::text::chars_of(input);
    match left_join_exec(&s, 0) {
        Some((v, e)) => Some((e, v)),
        None => None,
    }
}

/// The `WHERE` clause at the start of `input` and the number of characters
/// it takes (see `where_at`).
pub fn parse_where(input: &str) -> (r: Option<(usize, WhereCond)>)
    ensures
        match r {
            Some((e, c)) => where_at(input@, 0) == Some((c@, e as int)),
            None => where_at(input@, 0) is None,
        },
{
    let s = crate::text::chars_of(input);
    match where_exec(&s, 0) {
        Some((c, e)) => Some((e, c)),
        None => None,
    }
}

/// The `ORDER BY` clause at the start of `input` and the number of
/// characters it takes (see `orderby_at`).
pub fn orderby(input: &str) -> (r: Option<(usize, OrderBy)>)
    ensures
        match r {
            Some((e, o)) => orderby_at(input@, 0) == Some(((o.label@, o.is_asc), e as int)),
            None => orderby_at(input@, 0) is None,
        },
{
    let s = crate::text::chars_of(input);
    match orderby_exec(&s, 0) {
        Some((o, e)) => Some((e, o)),
        None => None,
    }
}

/// The `LIMIT` clause at the start of `input` and the number of characters
/// it takes (see `limit_at`).
pub fn limit(input: &str) -> (r: Option<(usize, Limit)>)
    ensures
        match r {
            Some((e, l)) => limit_at(input@, 0) == Some(((l.limit, l.offset), e as int)),
            None => limit_at(input@, 0) is None,
        },
{
    let s = crate::text::chars_of(input);
    match limit_exec(&s, 0) {
        Some((l, e)) => Some((e, l)),
        None => None,
    }
}

/// The end of the run of digits that starts at `i`.
pub open spec fn digit_run_end(s: Seq<char>, i: int) -> int
    decreases s.len() - i,
{
    if 0 <= i < s.len() && is_digit(s[i]) {
        digit_run_end(s, i + 1)
    } else {
        i
    }
}

/// A run of digits stays within the text, is nonempty when it starts at a
/// digit, and holds only digits.
pub proof fn lemma_digit_run_end(s: Seq<char>, i: int)
    requires
        0 <= i <= s.len(),
    ensures
        i <= digit_run_end(s, i) <= s.len(),
        i < s.len() && is_digit(s[i]) ==> i < digit_run_end(s, i),
        forall|k: int| i <= k < digit_run_end(s, i) ==> is_digit(#[trigger] s[k]),
    decreases s.len() - i,
{
    if i < s.len() && is_digit(s[i]) {
        lemma_digit_run_end(s, i + 1);
    }
}

/// The number written by the digits from `a` to `e`.
pub open spec fn number_in(s: Seq<char>, a: int, e: int) -> nat {
    digits_nat(digit_values(s.subrange(a, e)))
}

/// The numbers that follow position `j`, each written as `,`, multispace
/// and digits, and the position after the last of them.
pub open spec fn more_numbers(s: Seq<char>, j: int) -> (Seq<nat>, int)
    decreases s.len() - j,
{
    if 0 <= j < s.len() && s[j] == ',' && ws_end(s, j + 1) < s.len() && is_digit(
        s[ws_end(s, j + 1)],
    ) {
        let a = ws_end(s, j + 1);
        proof {
            lemma_ws_end(s, j + 1);
            lemma_digit_run_end(s, a);
        }
        let e = digit_run_end(s, a);
        let rest = more_numbers(s, e);
        (seq![number_in(s, a, e)] + rest.0, rest.1)
    } else {
        (Seq::empty(), j)
    }
}

/// A list of numbers `[1, 2, 3]` at `i`: `[`, numbers separated by `,`
/// (multispace allowed before each number), multispace and `]`; the
/// numbers and the position after `]`.
pub open spec fn array_at(s: Seq<char>, i: int) -> Option<(Seq<nat>, int)> {
    if 0 <= i < s.len() && s[i] == '[' {
        let p = ws_end(s, i + 1);
        let (items, q) = if p < s.len() && is_digit(s[p]) {
            let e = digit_run_end(s, p);
            let rest = more_numbers(s, e);
            (seq![number_in(s, p, e)] + rest.0, rest.1)
        } else {
            (Seq::<nat>::empty(), p)
        };
        let c = ws_end(s, q);
        if c < s.len() && s[c] == ']' {
            Some((items, c + 1))
        } else {
            None
        }
    } else {
        None
    }
}

/// The numbers of a list of `u64`.
pub open spec fn nats(v: Seq<u64>) -> Seq<nat> {
    v.map_values(|x: u64| x as nat)
}

/// Every number of `v` fits in `u64`.
pub open spec fn all_fit(v: Seq<nat>) -> bool {
    forall|k: int| 0 <= k < v.len() ==> v[k] <= u64::MAX
}

/// Every number of the list at `i`, if there is one, fits in `u64`.
pub open spec fn array_fits(s: Seq<char>, i: int) -> bool {
    match array_at(s, i) {
        Some((v, _)) => all_fit(v),
        None => true,
    }
}

fn digit_run_end_exec(s: &Vec<char>, i: usize) -> (r: usize)
    requires
        i <= s@.len(),
    ensures
        r == digit_run_end(s@, i as int),
        i <= r <= s@.len(),
    decreases s@.len() - i,
{
    if i < s.len() && '0' <= s[i] && s[i] <= '9' {
        digit_run_end_exec(s, i + 1)
    } else {
        i
    }
}

fn number_exec(s: &Vec<char>, a: usize, e: usize) -> (r: Option<u64>)
    requires
        a <= e <= s@.len(),
        forall|k: int| a <= k < e ==> is_digit(#[trigger] s@[k]),
    ensures
        match r {
            Some(n) => n == number_in(s@, a as int, e as int),
            None => number_in(s@, a as int, e as int) > u64::MAX,
        },
{
    let d = digit_values_exec(s, a, e);
    digits_u64(&d)
}

fn more_numbers_exec(s: &Vec<char>, j: usize) -> (r: (Option<Vec<u64>>, usize))
    requires
        j <= s@.len(),
    ensures
        r.1 == more_numbers(s@, j as int).1,
        j <= r.1 <= s@.len(),
        match r.0 {
            Some(v) => nats(v@) == more_numbers(s@, j as int).0,
            None => !all_fit(more_numbers(s@, j as int).0),
        },
    decreases s@.len() - j,
{
    if j < s.len() && s[j] == ',' {
        let a = ws_end_exec(s, j + 1);
        if a < s.len() && '0' <= s[a] && s[a] <= '9' {
            proof {
                lemma_ws_end(s@, j + 1);
                lemma_digit_run_end(s@, a as int);
            }
            let e = digit_run_end_exec(s, a);
            let ghost m = more_numbers(s@, j as int);
            let ghost rest = more_numbers(s@, e as int);
            assert(m.0 == seq![number_in(s@, a as int, e as int)] + rest.0);
            let first = number_exec(s, a, e);
            let (tail, q) = more_numbers_exec(s, e);
            match (first, tail) {
                (Some(n), Some(t)) => {
                    let mut out: Vec<u64> = Vec::new();
                    out.push(n);
                    let mut t = t;
                    let ghost tv = t@;
                    out.append(&mut t);
                    assert(nats(out@) =~= seq![n as nat] + nats(tv));
                    return (Some(out), q);
                },
                (None, _) => {
                    assert(m.0[0] > u64::MAX);
                    return (None, q);
                },
                (_, None) => {
                    assert(!all_fit(m.0)) by {
                        let k = choose|k: int| 0 <= k < rest.0.len() && !(rest.0[k] <= u64::MAX);
                        assert(m.0[k + 1] == rest.0[k]);
                    }
                    return (None, q);
                },
            }
        }
    }
    let r: Vec<u64> = Vec::new();
    assert(nats(r@) =~= Seq::<nat>::empty());
    (Some(r), j)
}

/// The list of numbers at the start of `input` (`[1, 2, 3]`) and the
/// number of characters it takes (see `array_at`).
pub fn array(input: &str) -> (r: Option<(usize, Vec<u64>)>)
    requires
        array_fits(input@, 0),
    ensures
        match r {
            Some((e, v)) => array_at(input@, 0) == Some((nats(v@), e as int)),
            None => array_at(input@, 0) is None,
        },
{
    let s = crate::text::chars_of(input);
    if s.len() == 0 || s[0] != '[' {
        return None;
    }
    let p = ws_end_exec(&s, 1);
    let ghost expected: Seq<nat> = if p < s@.len() && is_digit(s@[p as int]) {
        let e = digit_run_end(s@, p as int);
        seq![number_in(s@, p as int, e)] + more_numbers(s@, e).0
    } else {
        Seq::empty()
    };
    let ghost expected_end: int = if p < s@.len() && is_digit(s@[p as int]) {
        more_numbers(s@, digit_run_end(s@, p as int)).1
    } else {
        p as int
    };
    let (items, q): (Option<Vec<u64>>, usize) = if p < s.len() && '0' <= s[p] && s[p] <= '9' {
        proof {
            lemma_digit_run_end(s@, p as int);
        }
        let e = digit_run_end_exec(&s, p);
        let ghost rest = more_numbers(s@, e as int);
        let first = number_exec(&s, p, e);
        let (tail, q) = more_numbers_exec(&s, e);
        assert(expected == seq![number_in(s@, p as int, e as int)] + rest.0);
        match (first, tail) {
            (Some(n), Some(t)) => {
                let mut out: Vec<u64> = Vec::new();
                out.push(n);
                let mut t = t;
                let ghost tv = t@;
                out.append(&mut t);
                assert(nats(out@) =~= seq![n as nat] + nats(tv));
                (Some(out), q)
            },
            (None, _) => {
                assert(expected[0] == number_in(s@, p as int, e as int));
                (None, q)
            },
            (_, None) => {
                proof {
                    let k = choose|k: int| 0 <= k < rest.0.len() && !(rest.0[k] <= u64::MAX);
                    assert((seq![number_in(s@, p as int, e as int)] + rest.0)[k + 1] == rest.0[k]);
                }
                (None, q)
            },
        }
    } else {
        let r: Vec<u64> = Vec::new();
        assert(nats(r@) =~= Seq::<nat>::empty());
        (Some(r), p)
    };
    assert(q == expected_end);
    assert(items matches Some(v) ==> nats(v@) == expected);
    assert(items is None ==> !all_fit(expected));
    assert(array_at(s@, 0) == if ws_end(s@, expected_end) < s@.len() && s@[ws_end(
        s@,
        expected_end,
    )] == ']' {
        Some((expected, ws_end(s@, expected_end) + 1))
    } else {
        None
    });
    let c = ws_end_exec(&s, q);
    if c < s.len() && s[c] == ']' {
        match items {
            Some(v) => Some((c + 1, v)),
            None => None,
        }
    } else {
        None
    }
}

impl Sql {
    /// The query that `input` writes (see `sql_spec`).
    pub fn from_str(input: &str) -> (r: Result<Sql, SqlError>)
        ensures
            match sql_spec(input@) {
                Some(q) => r is Ok && r->Ok_0@ == q,
                None => r == Err::<Sql, SqlError>(SqlError::Syntax),
            },
    {
        sql(input)
    }
}


impl Field {
    /// The source at the start of `input` (see `field_at`); what follows it
    /// is ignored.
    pub fn from_str(input: &str) -> (r: Result<Field, SqlError>)
        ensures
            match field_at(input@, 0) {
                Some((f, _)) => r is Ok && (r->Ok_0.expr@, opt_str(r->Ok_0.alias)) == f,
                None => r == Err::<Field, SqlError>(SqlError::Syntax),
            },
    {
        let s = crate::text::chars_of(input);
        match field_exec(&s, 0) {
            Some((f, _)) => Ok(f),
            None => Err(SqlError::Syntax),
        }
    }
}

impl Selector {
    /// The path at the start of `input` (see `selector_at`); what follows
    /// it is ignored.
    pub fn from_str(input: &str) -> (r: Result<Selector, SqlError>)
        ensures
            match selector_at(input@, 0) {
                Some((p, _)) => r is Ok && r->Ok_0@ == p,
                None => r == Err::<Selector, SqlError>(SqlError::Syntax),
            },
    {
        match parse_selector(input) {
            Some((_, p)) => Ok(p),
            None => Err(SqlError::Syntax),
        }
    }
}

/// The value of a source at the start of `input` that is a PartiQL value:
/// the value itself, or, when an alias follows, the object that binds the
/// alias to it. `None` when the source is not a value.
pub fn pqlvalue_with_alias(input: &str) -> (r: Option<PqlValue>)
    ensures
        match field_at(input@, 0) {
            Some(((ExprModel::Value(v), alias), _)) => r is Some && r->Some_0@ == match alias {
                Some(a) => ValueModel::Object(seq![(a, v)]),
                None => v,
            },
            _ => r is None,
        },
{
    let s = crate::text::chars_of(input);
    match field_exec(&s, 0) {
        Some((Field { expr: Expr::Value(v), alias }, _)) => match alias {
            Some(a) => {
                let mut o = crate::value::PqlObject::new();
                let ghost vm = v@;
                let ghost am = a@;
                o.insert(a, v);
                assert(o@ =~= seq![(am, vm)]);
                Some(PqlValue::Object(o))
            },
            None => Some(v),
        },
        _ => None,
    }
}

} // verus!
