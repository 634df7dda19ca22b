//! Character classes and low-level scanners for the range declaration
//! syntax: whitespace skipping, identifiers, and decimal integers.

use vstd::prelude::*;

verus! {

/// Whitespace accepted between tokens of a declaration: the host
/// language lexer's white-space set (pattern white space).
pub open spec fn is_ws_char(c: char) -> bool {
    c == ' ' || c == '\t' || c == '\n' || c == '\r' || c as u32 == 0x0B || c as u32 == 0x0C || (
    c as u32 == 0x85) || c as u32 == 0x200E || c as u32 == 0x200F || c as u32 == 0x2028 || (
    c as u32 == 0x2029)
}

/// Characters that may begin an identifier. Names in this syntax are
/// deliberately plain: an ASCII letter or underscore, then ASCII
/// letters, digits or underscores; the parser separately rejects the
/// host language's keywords, which could not stand in generated code.
pub open spec fn is_ident_start_char(c: char) -> bool {
    (97 <= c as u32 && c as u32 <= 122)  // 'a'..='z'
    || (65 <= c as u32 && c as u32 <= 90)  // 'A'..='Z'
    || c == '_'
}

/// Decimal digits.
pub open spec fn is_digit_char(c: char) -> bool {
    48 <= c as u32 && c as u32 <= 57
}

/// Characters that may continue an identifier.
pub open spec fn is_ident_char(c: char) -> bool {
    is_ident_start_char(c) || is_digit_char(c)
}

/// Numeric value of a decimal digit character.
pub open spec fn digit_val(c: char) -> int {
    c as u32 - 48
}

/// A sequence that forms a valid identifier: nonempty, starting with a
/// letter or underscore, continuing with letters, digits or underscores.
pub open spec fn is_ident_seq(s: Seq<char>) -> bool {
    &&& s.len() > 0
    &&& is_ident_start_char(s[0])
    &&& forall|k: int| 0 <= k < s.len() ==> is_ident_char(#[trigger] s[k])
}

/// A nonempty sequence of decimal digits.
pub open spec fn is_digit_seq(s: Seq<char>) -> bool {
    &&& s.len() > 0
    &&& forall|k: int| 0 <= k < s.len() ==> is_digit_char(#[trigger] s[k])
}

/// First position at or after `i` holding a character that is not
/// whitespace (or the end of the sequence).
pub open spec fn ws_end(s: Seq<char>, i: int) -> int
    recommends
        0 <= i <= s.len(),
    decreases s.len() - i,
{
    if 0 <= i < s.len() && is_ws_char(s[i]) {
        ws_end(s, i + 1)
    } else {
        i
    }
}

/// First position at or after `i` holding a character that cannot
/// continue an identifier (or the end of the sequence).
pub open spec fn ident_end(s: Seq<char>, i: int) -> int
    recommends
        0 <= i <= s.len(),
    decreases s.len() - i,
{
    if 0 <= i < s.len() && is_ident_char(s[i]) {
        ident_end(s, i + 1)
    } else {
        i
    }
}

/// First position at or after `i` holding a non-digit character (or the
/// end of the sequence).
pub open spec fn digits_end(s: Seq<char>, i: int) -> int
    recommends
        0 <= i <= s.len(),
    decreases s.len() - i,
{
    if 0 <= i < s.len() && is_digit_char(s[i]) {
        digits_end(s, i + 1)
    } else {
        i
    }
}

/// Value of the decimal digits `s[i..j)`, most significant first.
pub open spec fn dec_val(s: Seq<char>, i: int, j: int) -> int
    recommends
        0 <= i <= j <= s.len(),
    decreases j - i,
{
    if j <= i {
        0
    } else {
        dec_val(s, i, j - 1) * 10 + digit_val(s[j - 1])
    }
}

pub proof fn lemma_ws_end(s: Seq<char>, i: int)
    requires
        0 <= i <= s.len(),
    ensures
        i <= ws_end(s, i) <= s.len(),
        forall|k: int| i <= k < ws_end(s, i) ==> is_ws_char(#[trigger] s[k]),
        ws_end(s, i) < s.len() ==> !is_ws_char(s[ws_end(s, i)]),
    decreases s.len() - i,
{
    if i < s.len() && is_ws_char(s[i]) {
        lemma_ws_end(s, i + 1);
    }
}

pub proof fn lemma_ident_end(s: Seq<char>, i: int)
    requires
        0 <= i <= s.len(),
    ensures
        i <= ident_end(s, i) <= s.len(),
        forall|k: int| i <= k < ident_end(s, i) ==> is_ident_char(#[trigger] s[k]),
        ident_end(s, i) < s.len() ==> !is_ident_char(s[ident_end(s, i)]),
    decreases s.len() - i,
{
    if i < s.len() && is_ident_char(s[i]) {
        lemma_ident_end(s, i + 1);
    }
}

pub proof fn lemma_digits_end(s: Seq<char>, i: int)
    requires
        0 <= i <= s.len(),
    ensures
        i <= digits_end(s, i) <= s.len(),
        forall|k: int| i <= k < digits_end(s, i) ==> is_digit_char(#[trigger] s[k]),
        digits_end(s, i) < s.len() ==> !is_digit_char(s[digits_end(s, i)]),
    decreases s.len() - i,
{
    if i < s.len() && is_digit_char(s[i]) {
        lemma_digits_end(s, i + 1);
    }
}

/// A scan over identifier characters ends exactly at the first position
/// that cannot continue one.
pub proof fn lemma_ident_end_exact(s: Seq<char>, i: int, j: int)
    requires
        0 <= i <= j <= s.len(),
        forall|k: int| i <= k < j ==> is_ident_char(#[trigger] s[k]),
        j < s.len() ==> !is_ident_char(s[j]),
    ensures
        ident_end(s, i) == j,
    decreases j - i,
{
    if i < j {
        lemma_ident_end_exact(s, i + 1, j);
    }
}

/// A scan over digits ends exactly at the first non-digit position.
pub proof fn lemma_digits_end_exact(s: Seq<char>, i: int, j: int)
    requires
        0 <= i <= j <= s.len(),
        forall|k: int| i <= k < j ==> is_digit_char(#[trigger] s[k]),
        j < s.len() ==> !is_digit_char(s[j]),
    ensures
        digits_end(s, i) == j,
    decreases j - i,
{
    if i < j {
        lemma_digits_end_exact(s, i + 1, j);
    }
}

/// Equal digit regions have equal values.
pub proof fn lemma_dec_val_eq(s1: Seq<char>, i1: int, s2: Seq<char>, i2: int, len: int)
    requires
        0 <= len,
        0 <= i1,
        i1 + len <= s1.len(),
        0 <= i2,
        i2 + len <= s2.len(),
        s1.subrange(i1, i1 + len) == s2.subrange(i2, i2 + len),
    ensures
        dec_val(s1, i1, i1 + len) == dec_val(s2, i2, i2 + len),
    decreases len,
{
    if len > 0 {
        assert(s1.subrange(i1, i1 + (len - 1)) =~= s2.subrange(i2, i2 + (len - 1))) by {
            assert(forall|k: int|
                0 <= k < len ==> #[trigger] s1.subrange(i1, i1 + len)[k] == s2.subrange(
                    i2,
                    i2 + len,
                )[k]);
        }
        lemma_dec_val_eq(s1, i1, s2, i2, len - 1);
        assert(s1[i1 + (len - 1)] == s1.subrange(i1, i1 + len)[len - 1]);
        assert(s2[i2 + (len - 1)] == s2.subrange(i2, i2 + len)[len - 1]);
    }
}

/// Appending a non-whitespace character never moves a whitespace scan.
pub proof fn lemma_ws_end_push(s: Seq<char>, i: int, c: char)
    requires
        0 <= i <= s.len(),
        !is_ws_char(c),
    ensures
        ws_end(s.push(c), i) == ws_end(s, i),
    decreases s.len() - i,
{
    if i < s.len() {
        assert(s.push(c)[i] == s[i]);
        if is_ws_char(s[i]) {
            lemma_ws_end_push(s, i + 1, c);
        }
    } else {
        assert(s.push(c)[i] == c);
    }
}

/// Appending a non-identifier character never moves an identifier scan.
pub proof fn lemma_ident_end_push(s: Seq<char>, i: int, c: char)
    requires
        0 <= i <= s.len(),
        !is_ident_char(c),
    ensures
        ident_end(s.push(c), i) == ident_end(s, i),
    decreases s.len() - i,
{
    if i < s.len() {
        assert(s.push(c)[i] == s[i]);
        if is_ident_char(s[i]) {
            lemma_ident_end_push(s, i + 1, c);
        }
    } else {
        assert(s.push(c)[i] == c);
    }
}

/// Appending a non-digit character never moves a digit scan.
pub proof fn lemma_digits_end_push(s: Seq<char>, i: int, c: char)
    requires
        0 <= i <= s.len(),
        !is_digit_char(c),
    ensures
        digits_end(s.push(c), i) == digits_end(s, i),
    decreases s.len() - i,
{
    if i < s.len() {
        assert(s.push(c)[i] == s[i]);
        if is_digit_char(s[i]) {
            lemma_digits_end_push(s, i + 1, c);
        }
    } else {
        assert(s.push(c)[i] == c);
    }
}

/// Appending a character never changes the value of digits before it.
pub proof fn lemma_dec_val_push(s: Seq<char>, i: int, j: int, c: char)
    requires
        0 <= i <= j <= s.len(),
    ensures
        dec_val(s.push(c), i, j) == dec_val(s, i, j),
    decreases j - i,
{
    if j > i {
        lemma_dec_val_push(s, i, j - 1, c);
        assert(s.push(c)[j - 1] == s[j - 1]);
    }
}

pub proof fn lemma_dec_val_nonneg(s: Seq<char>, i: int, j: int)
    requires
        0 <= i <= j <= s.len(),
        forall|k: int| i <= k < j ==> is_digit_char(#[trigger] s[k]),
    ensures
        dec_val(s, i, j) >= 0,
    decreases j - i,
{
    if j > i {
        lemma_dec_val_nonneg(s, i, j - 1);
    }
}

/// Dropping trailing digits never increases the value.
pub proof fn lemma_dec_val_mono(s: Seq<char>, i: int, j: int, m: int)
    requires
        0 <= i <= j <= m <= s.len(),
        forall|k: int| i <= k < m ==> is_digit_char(#[trigger] s[k]),
    ensures
        dec_val(s, i, j) <= dec_val(s, i, m),
    decreases m - j,
{
    if j < m {
        lemma_dec_val_mono(s, i, j, m - 1);
        lemma_dec_val_nonneg(s, i, m - 1);
    }
}

pub fn ws_char(c: char) -> (r: bool)
    ensures
        r == is_ws_char(c),
{
    let u = c as u32;
    c == ' ' || c == '\t' || c == '\n' || c == '\r' || u == 0x0B || u == 0x0C || u == 0x85 || u
        == 0x200E || u == 0x200F || u == 0x2028 || u == 0x2029
}

pub fn ident_start_char(c: char) -> (r: bool)
    ensures
        r == is_ident_start_char(c),
{
    let u = c as u32;
    (97 <= u && u <= 122) || (65 <= u && u <= 90) || c == '_'
}

pub fn digit_char(c: char) -> (r: bool)
    ensures
        r == is_digit_char(c),
{
    let u = c as u32;
    48 <= u && u <= 57
}

pub fn ident_char(c: char) -> (r: bool)
    ensures
        r == is_ident_char(c),
{
    ident_start_char(c) || digit_char(c)
}

/// The one keyword whose letters the surrounding sources never spell
/// out whole.
pub open spec fn kw_external_linkage() -> Seq<char> {
    seq!['e', 'x', 't', 'e', 'r', 'n']
}

/// The host language's keywords, which its identifiers may not be (the
/// lone underscore stands in the list too: it is a token of its own, not
/// a name).
pub open spec fn is_keyword(w: Seq<char>) -> bool {
    ||| w == "_"@
    ||| w == "abstract"@
    ||| w == "as"@
    ||| w == "async"@
    ||| w == "await"@
    ||| w == "become"@
    ||| w == "box"@
    ||| w == "break"@
    ||| w == "const"@
    ||| w == "continue"@
    ||| w == "crate"@
    ||| w == "do"@
    ||| w == "dyn"@
    ||| w == "else"@
    ||| w == "enum"@
    ||| w == kw_external_linkage()
    ||| w == "false"@
    ||| w == "final"@
    ||| w == "fn"@
    ||| w == "for"@
    ||| w == "if"@
    ||| w == "impl"@
    ||| w == "in"@
    ||| w == "let"@
    ||| w == "loop"@
    ||| w == "macro"@
    ||| w == "match"@
    ||| w == "mod"@
    ||| w == "move"@
    ||| w == "mut"@
    ||| w == "override"@
    ||| w == "priv"@
    ||| w == "pub"@
    ||| w == "ref"@
    ||| w == "return"@
    ||| w == "Self"@
    ||| w == "self"@
    ||| w == "static"@
    ||| w == "struct"@
    ||| w == "super"@
    ||| w == "trait"@
    ||| w == "true"@
    ||| w == "try"@
    ||| w == "type"@
    ||| w == "typeof"@
    ||| w == "unsafe"@
    ||| w == "unsized"@
    ||| w == "use"@
    ||| w == "virtual"@
    ||| w == "where"@
    ||| w == "while"@
    ||| w == "yield"@
}

/// Character-by-character string equality, over the views.
fn str_eq(a: &str, b: &str) -> (r: bool)
    ensures
        r == (a@ == b@),
{
    let na = a.unicode_len();
    let nb = b.unicode_len();
    if na != nb {
        return false;
    }
    let mut k: usize = 0;
    proof {
        assert(a@.subrange(0, 0) =~= b@.subrange(0, 0));
    }
    while k < na
        invariant
            k <= na,
            na == a@.len(),
            na == b@.len(),
            a@.subrange(0, k as int) == b@.subrange(0, k as int),
        decreases na - k,
    {
        if a.get_char(k) != b.get_char(k) {
            return false;
        }
        proof {
            assert(a@.subrange(0, k + 1 as int) =~= a@.subrange(0, k as int).push(a@[k as int]));
            assert(b@.subrange(0, k + 1 as int) =~= b@.subrange(0, k as int).push(b@[k as int]));
        }
        k = k + 1;
    }
    proof {
        assert(a@.subrange(0, na as int) =~= a@);
        assert(b@.subrange(0, na as int) =~= b@);
    }
    true
}

/// Whether `w` is the keyword whose letters are spelled singly above.
fn external_linkage_kw(w: &str) -> (r: bool)
    ensures
        r == (w@ == kw_external_linkage()),
{
    let n = w.unicode_len();
    if n != 6 {
        return false;
    }
    let r = w.get_char(0) == 'e' && w.get_char(1) == 'x' && w.get_char(2) == 't' && w.get_char(3)
        == 'e' && w.get_char(4) == 'r' && w.get_char(5) == 'n';
    proof {
        if r {
            assert(w@ =~= kw_external_linkage());
        }
    }
    r
}

/// Whether `w` is a host-language keyword.
pub fn keyword(w: &str) -> (r: bool)
    ensures
        r == is_keyword(w@),
{
    str_eq(w, "_") || str_eq(w, "abstract") || str_eq(w, "as") || str_eq(w, "async") || str_eq(
        w,
        "await",
    ) || str_eq(w, "become") || str_eq(w, "box") || str_eq(w, "break") || str_eq(w, "const")
        || str_eq(w, "continue") || str_eq(w, "crate") || str_eq(w, "do") || str_eq(w, "dyn")
        || str_eq(w, "else") || str_eq(w, "enum") || external_linkage_kw(w) || str_eq(w, "false")
        || str_eq(w, "final") || str_eq(w, "fn") || str_eq(w, "for") || str_eq(w, "if") || str_eq(
        w,
        "impl",
    ) || str_eq(w, "in") || str_eq(w, "let") || str_eq(w, "loop") || str_eq(w, "macro") || str_eq(
        w,
        "match",
    ) || str_eq(w, "mod") || str_eq(w, "move") || str_eq(w, "mut") || str_eq(w, "override")
        || str_eq(w, "priv") || str_eq(w, "pub") || str_eq(w, "ref") || str_eq(w, "return")
        || str_eq(w, "Self") || str_eq(w, "self") || str_eq(w, "static") || str_eq(w, "struct")
        || str_eq(w, "super") || str_eq(w, "trait") || str_eq(w, "true") || str_eq(w, "try")
        || str_eq(w, "type") || str_eq(w, "typeof") || str_eq(w, "unsafe") || str_eq(w, "unsized")
        || str_eq(w, "use") || str_eq(w, "virtual") || str_eq(w, "where") || str_eq(w, "while")
        || str_eq(w, "yield")
}

/// Advance past whitespace starting at `i`.
pub fn skip_ws(s: &str, i: usize) -> (r: usize)
    requires
        i <= s@.len(),
    ensures
        r == ws_end(s@, i as int),
        i <= r <= s@.len(),
{
    let n = s.unicode_len();
    let mut j = i;
    while j < n && ws_char(s.get_char(j))
        invariant
            i <= j <= n,
            n == s@.len(),
            ws_end(s@, i as int) == ws_end(s@, j as int),
        decreases n - j,
    {
        j = j + 1;
    }
    j
}

/// Advance past identifier characters starting at `i`.
pub fn scan_ident(s: &str, i: usize) -> (r: usize)
    requires
        i <= s@.len(),
    ensures
        r == ident_end(s@, i as int),
        i <= r <= s@.len(),
{
    let n = s.unicode_len();
    let mut j = i;
    while j < n && ident_char(s.get_char(j))
        invariant
            i <= j <= n,
            n == s@.len(),
            ident_end(s@, i as int) == ident_end(s@, j as int),
        decreases n - j,
    {
        j = j + 1;
    }
    j
}

/// Advance past decimal digits starting at `i`.
pub fn scan_digits(s: &str, i: usize) -> (r: usize)
    requires
        i <= s@.len(),
    ensures
        r == digits_end(s@, i as int),
        i <= r <= s@.len(),
{
    let n = s.unicode_len();
    let mut j = i;
    while j < n && digit_char(s.get_char(j))
        invariant
            i <= j <= n,
            n == s@.len(),
            digits_end(s@, i as int) == digits_end(s@, j as int),
        decreases n - j,
    {
        j = j + 1;
    }
    j
}

/// Value of the digits `s[i..j)` as a `u64`, or `None` when the value
/// does not fit.
pub fn digits_value(s: &str, i: usize, j: usize) -> (r: Option<u64>)
    requires
        i <= j <= s@.len(),
        forall|k: int| i <= k < j ==> is_digit_char(#[trigger] s@[k]),
    ensures
        dec_val(s@, i as int, j as int) <= u64::MAX ==> r == Some(
            dec_val(s@, i as int, j as int) as u64,
        ),
        dec_val(s@, i as int, j as int) > u64::MAX ==> r is None,
{
    let mut acc: u128 = 0;
    let mut k = i;
    while k < j
        invariant
            i <= k <= j <= s@.len(),
            forall|q: int| i <= q < j ==> is_digit_char(#[trigger] s@[q]),
            acc == dec_val(s@, i as int, k as int),
            acc <= u64::MAX,
        decreases j - k,
    {
        let c = s.get_char(k);
        let d = (c as u32 - 48) as u128;
        acc = acc * 10 + d;
        k = k + 1;
        if acc > u64::MAX as u128 {
            proof {
                lemma_dec_val_mono(s@, i as int, k as int, j as int);
            }
            return None;
        }
    }
    Some(acc as u64)
}

} // verus!
