//! Laws on what separates tokens: the lexer reads a text the same wherever it stands,
//! and a closed block comment separates tokens as a blank does.
use vstd::prelude::*;
use crate::lexer::{
    block_end, ident_end, lemma_block_end, lemma_ident_end, lemma_line_end, lemma_next_progress,
    lemma_number_end, lemma_scan_progress, lemma_skip_ws, line_at, col_at, line_end, next_token_from, number_end, scan_at,
    scan_string, skip_ws, tokenize, tokens_from, Scan, SToken,
};
use crate::text::unicode_whitespace;

verus! {

/// `y` from `q` on is `x` from `p` on.
pub open spec fn same_rest(x: Seq<char>, p: int, y: Seq<char>, q: int) -> bool {
    &&& 0 <= p <= x.len()
    &&& 0 <= q <= y.len()
    &&& x.len() - p == y.len() - q
    &&& forall|i: int| p <= i < x.len() ==> #[trigger] x[i] == y[i + (q - p)]
}

/// Two lexing outcomes agree on everything but positions: both fail, or both give
/// tokens of the same kinds and texts, in the same order.
pub open spec fn same_kinds(r1: Result<Seq<SToken>, Seq<char>>, r2: Result<Seq<SToken>, Seq<char>>) -> bool {
    match (r1, r2) {
        (Ok(a), Ok(b)) => a.len() == b.len() && forall|k: int|
            0 <= k < a.len() ==> (#[trigger] a[k]).kind == b[k].kind && a[k].text == b[k].text,
        (Err(_), Err(_)) => true,
        _ => false,
    }
}

proof fn lemma_skip_ws_shift(x: Seq<char>, p: int, y: Seq<char>, q: int, i: int)
    requires
        same_rest(x, p, y, q),
        p <= i <= x.len(),
    ensures
        skip_ws(y, i + (q - p)) == skip_ws(x, i) + (q - p),
    decreases x.len() - i,
{
    if i < x.len() && unicode_whitespace(x[i]) {
        lemma_skip_ws_shift(x, p, y, q, i + 1);
    }
}

proof fn lemma_line_end_shift(x: Seq<char>, p: int, y: Seq<char>, q: int, i: int)
    requires
        same_rest(x, p, y, q),
        p <= i <= x.len(),
    ensures
        line_end(y, i + (q - p)) == line_end(x, i) + (q - p),
    decreases x.len() - i,
{
    if i < x.len() && x[i] != '\n' {
        lemma_line_end_shift(x, p, y, q, i + 1);
    }
}

proof fn lemma_block_end_shift(x: Seq<char>, p: int, y: Seq<char>, q: int, i: int)
    requires
        same_rest(x, p, y, q),
        p <= i,
    ensures
        match block_end(x, i) {
            Some(e) => block_end(y, i + (q - p)) == Some(e + (q - p)),
            None => block_end(y, i + (q - p)) is None,
        },
    decreases x.len() - i,
{
    if i < x.len() {
        if i + 1 < x.len() {
            assert(x[i + 1] == y[i + 1 + (q - p)]);
        }
        if !(x[i] == '*' && i + 1 < x.len() && x[i + 1] == '/') {
            lemma_block_end_shift(x, p, y, q, i + 1);
        }
    }
}

proof fn lemma_number_end_shift(x: Seq<char>, p: int, y: Seq<char>, q: int, i: int)
    requires
        same_rest(x, p, y, q),
        p <= i <= x.len(),
    ensures
        number_end(y, i + (q - p)) == number_end(x, i) + (q - p),
    decreases x.len() - i,
{
    if i < x.len() && (crate::text::ascii_digit(x[i]) || x[i] == '.') {
        lemma_number_end_shift(x, p, y, q, i + 1);
    }
}

proof fn lemma_ident_end_shift(x: Seq<char>, p: int, y: Seq<char>, q: int, i: int)
    requires
        same_rest(x, p, y, q),
        p <= i <= x.len(),
    ensures
        ident_end(y, i + (q - p)) == ident_end(x, i) + (q - p),
    decreases x.len() - i,
{
    if i < x.len() && (crate::text::alphanumeric(x[i]) || x[i] == '_') {
        lemma_ident_end_shift(x, p, y, q, i + 1);
    }
}

proof fn lemma_scan_string_shift(
    x: Seq<char>,
    p: int,
    y: Seq<char>,
    q: int,
    i: int,
    acc: Seq<char>,
    l1: nat,
    c1: nat,
    l2: nat,
    c2: nat,
)
    requires
        same_rest(x, p, y, q),
        p <= i,
    ensures
        match scan_string(x, i, acc, l1, c1) {
            Ok((s, e)) => scan_string(y, i + (q - p), acc, l2, c2) == Ok::<(Seq<char>, int), Seq<char>>((s, e + (q - p))),
            Err(_) => scan_string(y, i + (q - p), acc, l2, c2) is Err,
        },
    decreases x.len() - i,
{
    if i < x.len() && x[i] != '"' {
        if x[i] == '\\' {
            if i + 1 < x.len() {
                assert(x[i + 1] == y[i + 1 + (q - p)]);
                if let Some(e) = crate::lexer::escape_of(x[i + 1]) {
                    lemma_scan_string_shift(x, p, y, q, i + 2, acc.push(e), l1, c1, l2, c2);
                }
            }
        } else {
            lemma_scan_string_shift(x, p, y, q, i + 1, acc.push(x[i]), l1, c1, l2, c2);
        }
    }
}

/// What the grammar reads at an index depends only on the text from there on.
proof fn lemma_scan_at_shift(x: Seq<char>, p: int, y: Seq<char>, q: int, j: int)
    requires
        same_rest(x, p, y, q),
        p <= j < x.len(),
    ensures
        match scan_at(x, j) {
            Scan::Skip(k) => scan_at(y, j + (q - p)) == Scan::Skip(k + (q - p)),
            Scan::Tok(kind, text, k) => scan_at(y, j + (q - p)) == Scan::Tok(kind, text, k + (q - p)),
            Scan::Fail(_) => scan_at(y, j + (q - p)) is Fail,
        },
{
    let d = q - p;
    assert(x[j] == y[j + d]);
    if j + 1 < x.len() {
        assert(x[j + 1] == y[j + 1 + d]);
    }
    lemma_line_end_shift(x, p, y, q, if j + 2 <= x.len() { j + 2 } else { x.len() as int });
    lemma_block_end_shift(x, p, y, q, j + 2);
    lemma_number_end_shift(x, p, y, q, j + 1);
    lemma_ident_end_shift(x, p, y, q, j + 1);
    lemma_number_end(x, j + 1);
    lemma_ident_end(x, j + 1);
    let ne = number_end(x, j + 1);
    let ie = ident_end(x, j + 1);
    assert(x.subrange(j, ne) =~= y.subrange(j + d, ne + d));
    assert(x.subrange(j, ie) =~= y.subrange(j + d, ie + d));
    lemma_scan_string_shift(
        x,
        p,
        y,
        q,
        j + 1,
        Seq::empty(),
        crate::lexer::line_at(x, j),
        crate::lexer::col_at(x, j),
        crate::lexer::line_at(y, j + d),
        crate::lexer::col_at(y, j + d),
    );
}

/// The next token depends only on the text from there on, but for its position.
proof fn lemma_next_shift(x: Seq<char>, p: int, y: Seq<char>, q: int, i: int)
    requires
        same_rest(x, p, y, q),
        p <= i <= x.len(),
    ensures
        match next_token_from(x, i) {
            Ok(None) => next_token_from(y, i + (q - p)) == Ok::<Option<(SToken, int)>, Seq<char>>(None),
            Ok(Some((t, k))) => next_token_from(y, i + (q - p)) matches Ok(Some((u, k2))) && u.kind == t.kind
                && u.text == t.text && k2 == k + (q - p),
            Err(_) => next_token_from(y, i + (q - p)) is Err,
        },
    decreases x.len() - i,
{
    let d = q - p;
    lemma_skip_ws(x, i);
    lemma_skip_ws_shift(x, p, y, q, i);
    let j = skip_ws(x, i);
    if j < x.len() {
        lemma_scan_progress(x, j);
        lemma_scan_at_shift(x, p, y, q, j);
        if let Scan::Skip(k) = scan_at(x, j) {
            lemma_next_shift(x, p, y, q, k);
        }
    }
}

/// The tokens of a text from an index depend only on the text from there on, but for
/// their positions.
pub proof fn lemma_tokens_shift(x: Seq<char>, p: int, y: Seq<char>, q: int, i: int)
    requires
        same_rest(x, p, y, q),
        p <= i <= x.len(),
    ensures
        same_kinds(tokens_from(x, i), tokens_from(y, i + (q - p))),
    decreases x.len() - i,
{
    let d = q - p;
    lemma_next_progress(x, i);
    lemma_next_progress(y, i + d);
    lemma_next_shift(x, p, y, q, i);
    if let Ok(Some((t, k))) = next_token_from(x, i) {
        lemma_tokens_shift(x, p, y, q, k);
        if let (Ok(r1), Ok(r2)) = (tokens_from(x, k), tokens_from(y, k + d)) {
            let u = next_token_from(y, i + d)->Ok_0->Some_0.0;
            let a = seq![t] + r1;
            let b = seq![u] + r2;
            assert forall|m: int| 0 <= m < a.len() implies (#[trigger] a[m]).kind == b[m].kind && a[m].text == b[m].text by {
                if m > 0 {
                    assert(a[m] == r1[m - 1]);
                    assert(b[m] == r2[m - 1]);
                }
            }
        }
    }
}

/// A blank before index `i + 1` is skipped: the tokens from `i` are those from `i + 1`.
proof fn lemma_blank_step(cs: Seq<char>, i: int)
    requires
        0 <= i < cs.len(),
        unicode_whitespace(cs[i]),
    ensures
        tokens_from(cs, i) == tokens_from(cs, i + 1),
{
    assert(skip_ws(cs, i) == skip_ws(cs, i + 1));
    assert(next_token_from(cs, i) == next_token_from(cs, i + 1));
}

/// A closed block comment at `i` is skipped: the tokens from `i` are those from just
/// after its `*/`.
proof fn lemma_comment_step(cs: Seq<char>, i: int, e: int)
    requires
        0 <= i,
        i + 1 < cs.len(),
        cs[i] == '/',
        cs[i + 1] == '*',
        block_end(cs, i + 2) == Some(e),
    ensures
        tokens_from(cs, i) == tokens_from(cs, e),
{
    lemma_block_end(cs, i + 2);
    assert(skip_ws(cs, i) == i);
    assert(scan_at(cs, i) == Scan::Skip(e));
    assert(next_token_from(cs, i) == next_token_from(cs, e));
}

/// `block_end` from `k` finds the `*/` at `r - 2` when none starts before it.
proof fn lemma_block_end_at(cs: Seq<char>, k: int, r: int)
    requires
        0 <= k <= r - 2,
        r <= cs.len(),
        cs[r - 2] == '*',
        cs[r - 1] == '/',
        forall|m: int| k <= m < r - 2 ==> !(#[trigger] cs[m] == '*' && cs[m + 1] == '/'),
    ensures
        block_end(cs, k) == Some(r),
    decreases r - k,
{
    if k < r - 2 {
        assert(!(cs[k] == '*' && cs[k + 1] == '/'));
        lemma_block_end_at(cs, k + 1, r);
    }
}

/// A closed block comment separates tokens as a blank does: in a text, a blank and a
/// block comment set off by blanks (whose body holds no `*/`) leave the same tokens, of
/// the same kinds and texts, from there to the end; and lexing fails after the one
/// exactly when it fails after the other.
pub proof fn lemma_comment_as_blank(a: Seq<char>, b: Seq<char>, c: Seq<char>)
    requires
        forall|k: int| 0 <= k && k + 1 < c.len() ==> !(#[trigger] c[k] == '*' && c[k + 1] == '/'),
    ensures
        same_kinds(
            tokens_from(a + seq![' '] + b, a.len() as int),
            tokens_from(a + seq![' ', '/', '*', ' '] + c + seq![' ', '*', '/', ' '] + b, a.len() as int),
        ),
{
    let n = a.len() as int;
    let s1 = a + seq![' '] + b;
    let s2 = a + seq![' ', '/', '*', ' '] + c + seq![' ', '*', '/', ' '] + b;
    let m1 = n + 1;
    let m2 = n + 8 + c.len();
    assert(s1[n] == ' ');
    lemma_blank_step(s1, n);
    assert(s2[n] == ' ');
    lemma_blank_step(s2, n);
    assert(s2[n + 1] == '/' && s2[n + 2] == '*');
    assert forall|m: int| n + 3 <= m < m2 - 3 implies !(#[trigger] s2[m] == '*' && s2[m + 1] == '/') by {
        if n + 4 <= m < n + 4 + c.len() {
            assert(s2[m] == c[m - n - 4]);
            if m + 1 < n + 4 + c.len() {
                assert(s2[m + 1] == c[m + 1 - n - 4]);
            }
        }
    }
    assert(s2[m2 - 3] == '*' && s2[m2 - 2] == '/');
    lemma_block_end_at(s2, n + 3, m2 - 1);
    lemma_comment_step(s2, n + 1, m2 - 1);
    assert(s2[m2 - 1] == ' ');
    lemma_blank_step(s2, m2 - 1);
    assert forall|i: int| m1 <= i < s1.len() implies #[trigger] s1[i] == s2[i + (m2 - m1)] by {
        assert(s1[i] == b[i - m1]);
        assert(s2[i + (m2 - m1)] == b[i - m1]);
    }
    lemma_tokens_shift(s1, m1, s2, m2, m1);
}

/// Whether lexing `cs` from `i` ends inside a line comment: the scan meets a `//` whose
/// line runs to the end of the text.
pub open spec fn ends_in_line_comment(cs: Seq<char>, i: int) -> bool
    decreases cs.len() - i,
{
    if i < 0 || i > cs.len() {
        false
    } else {
        let j = skip_ws(cs, i);
        if j >= cs.len() {
            false
        } else {
            proof {
                lemma_skip_ws(cs, i);
                lemma_scan_progress(cs, j);
            }
            if cs[j] == '/' && j + 1 < cs.len() && cs[j + 1] == '/' && line_end(cs, j + 2) == cs.len() {
                true
            } else {
                match scan_at(cs, j) {
                    Scan::Skip(k) => ends_in_line_comment(cs, k),
                    Scan::Tok(_, _, k) => ends_in_line_comment(cs, k),
                    Scan::Fail(_) => false,
                }
            }
        }
    }
}

/// `x` is `a` followed by a blank and more.
spec fn blank_after(a: Seq<char>, x: Seq<char>) -> bool {
    &&& a.len() < x.len()
    &&& x[a.len() as int] == ' '
    &&& forall|i: int| 0 <= i < a.len() ==> #[trigger] x[i] == a[i]
}

proof fn lemma_position_prefix(a: Seq<char>, x: Seq<char>, i: int)
    requires
        blank_after(a, x),
        0 <= i <= a.len(),
    ensures
        line_at(x, i) == line_at(a, i),
        col_at(x, i) == col_at(a, i),
    decreases i,
{
    if i > 0 {
        assert(x[i - 1] == a[i - 1]);
        lemma_position_prefix(a, x, i - 1);
    }
}

proof fn lemma_skip_ws_prefix(a: Seq<char>, x: Seq<char>, i: int)
    requires
        blank_after(a, x),
        0 <= i <= a.len(),
    ensures
        skip_ws(a, i) < a.len() ==> skip_ws(x, i) == skip_ws(a, i),
        skip_ws(a, i) >= a.len() ==> skip_ws(x, i) == skip_ws(x, a.len() as int),
    decreases a.len() - i,
{
    if i < a.len() {
        assert(x[i] == a[i]);
        if unicode_whitespace(a[i]) {
            lemma_skip_ws_prefix(a, x, i + 1);
        }
    }
}

proof fn lemma_line_end_prefix(a: Seq<char>, x: Seq<char>, k: int)
    requires
        blank_after(a, x),
        0 <= k <= a.len(),
        line_end(a, k) < a.len(),
    ensures
        line_end(x, k) == line_end(a, k),
    decreases a.len() - k,
{
    assert(x[k] == a[k]);
    if a[k] != '\n' {
        lemma_line_end_prefix(a, x, k + 1);
    }
}

proof fn lemma_block_end_prefix(a: Seq<char>, x: Seq<char>, k: int)
    requires
        blank_after(a, x),
        0 <= k,
        block_end(a, k) is Some,
    ensures
        block_end(x, k) == block_end(a, k),
    decreases a.len() - k,
{
    assert(x[k] == a[k]);
    if k + 1 < a.len() {
        assert(x[k + 1] == a[k + 1]);
    }
    if !(a[k] == '*' && k + 1 < a.len() && a[k + 1] == '/') {
        lemma_block_end_prefix(a, x, k + 1);
    }
}

proof fn lemma_number_end_prefix(a: Seq<char>, x: Seq<char>, k: int)
    requires
        blank_after(a, x),
        0 <= k <= a.len(),
    ensures
        number_end(x, k) == number_end(a, k),
    decreases a.len() - k,
{
    if k < a.len() {
        assert(x[k] == a[k]);
        if crate::text::ascii_digit(a[k]) || a[k] == '.' {
            lemma_number_end_prefix(a, x, k + 1);
        }
    }
}

proof fn lemma_ident_end_prefix(a: Seq<char>, x: Seq<char>, k: int)
    requires
        blank_after(a, x),
        0 <= k <= a.len(),
    ensures
        ident_end(x, k) == ident_end(a, k),
    decreases a.len() - k,
{
    if k < a.len() {
        assert(x[k] == a[k]);
        if crate::text::alphanumeric(a[k]) || a[k] == '_' {
            lemma_ident_end_prefix(a, x, k + 1);
        }
    }
}

proof fn lemma_scan_string_prefix(a: Seq<char>, x: Seq<char>, k: int, acc: Seq<char>, sl: nat, sc: nat)
    requires
        blank_after(a, x),
        0 <= k,
        scan_string(a, k, acc, sl, sc) is Ok,
    ensures
        scan_string(x, k, acc, sl, sc) == scan_string(a, k, acc, sl, sc),
    decreases a.len() - k,
{
    assert(x[k] == a[k]);
    if a[k] != '"' {
        if a[k] == '\\' {
            assert(x[k + 1] == a[k + 1]);
            lemma_scan_string_prefix(a, x, k + 2, acc.push(crate::lexer::escape_of(a[k + 1])->0), sl, sc);
        } else {
            lemma_scan_string_prefix(a, x, k + 1, acc.push(a[k]), sl, sc);
        }
    }
}

/// What the grammar reads at an index of `a` is read the same in `x`, unless it is a
/// line comment running to the end of `a`.
proof fn lemma_scan_at_prefix(a: Seq<char>, x: Seq<char>, j: int)
    requires
        blank_after(a, x),
        0 <= j < a.len(),
        !(scan_at(a, j) is Fail),
        !(a[j] == '/' && j + 1 < a.len() && a[j + 1] == '/' && line_end(a, j + 2) == a.len()),
    ensures
        scan_at(x, j) == scan_at(a, j),
{
    assert(x[j] == a[j]);
    if j + 1 < a.len() {
        assert(x[j + 1] == a[j + 1]);
    }
    lemma_position_prefix(a, x, j);
    lemma_number_end(a, j + 1);
    lemma_ident_end(a, j + 1);
    lemma_number_end_prefix(a, x, j + 1);
    lemma_ident_end_prefix(a, x, j + 1);
    let ne = number_end(a, j + 1);
    let ie = ident_end(a, j + 1);
    assert(x.subrange(j, ne) =~= a.subrange(j, ne));
    assert(x.subrange(j, ie) =~= a.subrange(j, ie));
    if a[j] == '/' && j + 1 < a.len() && a[j + 1] == '/' {
        lemma_line_end(a, j + 2);
        lemma_line_end_prefix(a, x, j + 2);
    } else if a[j] == '/' && j + 1 < a.len() && a[j + 1] == '*' {
        lemma_block_end_prefix(a, x, j + 2);
    } else if a[j] == '"' {
        lemma_scan_string_prefix(a, x, j + 1, Seq::empty(), line_at(a, j), col_at(a, j));
    }
}

/// The next token found in `a` is found in `x`; where `a` has none left (and does not
/// end inside a line comment), `x` goes on as from the end of `a`.
proof fn lemma_next_prefix(a: Seq<char>, x: Seq<char>, i: int)
    requires
        blank_after(a, x),
        0 <= i <= a.len(),
        next_token_from(a, i) is Ok,
        !ends_in_line_comment(a, i),
    ensures
        next_token_from(a, i) matches Ok(Some(_)) ==> next_token_from(x, i) == next_token_from(a, i),
        next_token_from(a, i) matches Ok(Some((_, k))) ==> !ends_in_line_comment(a, k),
        next_token_from(a, i) matches Ok(None) ==> next_token_from(x, i) == next_token_from(x, a.len() as int),
    decreases a.len() - i,
{
    lemma_skip_ws(a, i);
    lemma_skip_ws_prefix(a, x, i);
    let j = skip_ws(a, i);
    lemma_skip_ws(x, a.len() as int);
    if j < a.len() {
        lemma_scan_progress(a, j);
        lemma_scan_at_prefix(a, x, j);
        lemma_position_prefix(a, x, j);
        if let Scan::Skip(k) = scan_at(a, j) {
            lemma_next_prefix(a, x, k);
        }
    }
}

/// The tokens of `x` from an index of `a` are those of `a` from there, followed by
/// those of `x` from the end of `a`.
proof fn lemma_tokens_prefix(a: Seq<char>, x: Seq<char>, i: int)
    requires
        blank_after(a, x),
        0 <= i <= a.len(),
        tokens_from(a, i) is Ok,
        !ends_in_line_comment(a, i),
    ensures
        tokens_from(x, i) == match tokens_from(x, a.len() as int) {
            Ok(us) => Ok(tokens_from(a, i)->Ok_0 + us),
            Err(m) => Err::<Seq<SToken>, Seq<char>>(m),
        },
    decreases a.len() - i,
{
    lemma_next_progress(a, i);
    lemma_next_progress(x, i);
    lemma_next_prefix(a, x, i);
    lemma_next_progress(x, a.len() as int);
    match next_token_from(a, i) {
        Ok(Some((t, k))) => {
            lemma_tokens_prefix(a, x, k);
            if let Ok(us) = tokens_from(x, a.len() as int) {
                let ts = tokens_from(a, k)->Ok_0;
                assert(seq![t] + (ts + us) =~= (seq![t] + ts) + us);
            }
        },
        _ => {
            if let Ok(us) = tokens_from(x, a.len() as int) {
                assert(Seq::<SToken>::empty() + us =~= us);
            }
        },
    }
}

/// A closed block comment separates tokens as a blank does, in a whole text: when `a`
/// lexes and does not end inside a line comment, and the body `c` holds no `*/`, the
/// text `a`, blank, `b` and the text `a`, blank-set-off block comment of `c`, `b` both
/// lex or both fail, and give tokens of the same kinds and texts in the same order.
pub proof fn lemma_comment_as_blank_in_text(a: Seq<char>, b: Seq<char>, c: Seq<char>)
    requires
        tokenize(a) is Ok,
        !ends_in_line_comment(a, 0),
        forall|k: int| 0 <= k && k + 1 < c.len() ==> !(#[trigger] c[k] == '*' && c[k + 1] == '/'),
    ensures
        same_kinds(
            tokenize(a + seq![' '] + b),
            tokenize(a + seq![' ', '/', '*', ' '] + c + seq![' ', '*', '/', ' '] + b),
        ),
{
    let n = a.len() as int;
    let s1 = a + seq![' '] + b;
    let s2 = a + seq![' ', '/', '*', ' '] + c + seq![' ', '*', '/', ' '] + b;
    assert(blank_after(a, s1));
    assert(blank_after(a, s2));
    lemma_tokens_prefix(a, s1, 0);
    lemma_tokens_prefix(a, s2, 0);
    lemma_comment_as_blank(a, b, c);
    if let (Ok(u1), Ok(u2)) = (tokens_from(s1, n), tokens_from(s2, n)) {
        let ts = tokens_from(a, 0)->Ok_0;
        let r1 = ts + u1;
        let r2 = ts + u2;
        assert forall|m: int| 0 <= m < r1.len() implies (#[trigger] r1[m]).kind == r2[m].kind && r1[m].text == r2[m].text by {
            if m >= ts.len() {
                assert(r1[m] == u1[m - ts.len()]);
                assert(r2[m] == u2[m - ts.len()]);
            }
        }
    }
}

} // verus!
