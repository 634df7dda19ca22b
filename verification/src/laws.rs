//! Grammar laws: what the range-token and range-list parsers yield on
//! every well-formed input, and the trailing-comma tolerance.

use vstd::prelude::*;

use crate::lexer::dec_val;
use crate::lexer::digits_end;
use crate::lexer::ident_end;
use crate::lexer::is_digit_seq;
use crate::lexer::is_ident_seq;
use crate::lexer::is_keyword;
use crate::lexer::lemma_dec_val_eq;
use crate::lexer::lemma_dec_val_push;
use crate::lexer::lemma_digits_end;
use crate::lexer::lemma_digits_end_exact;
use crate::lexer::lemma_digits_end_push;
use crate::lexer::lemma_ident_end;
use crate::lexer::lemma_ident_end_exact;
use crate::lexer::lemma_ident_end_push;
use crate::lexer::lemma_ws_end;
use crate::lexer::lemma_ws_end_push;
use crate::lexer::ws_end;
use crate::parse::NamedRangeV;
use crate::parse::lemma_spec_range_bounds;
use crate::parse::spec_list;
use crate::parse::spec_list_str;
use crate::parse::spec_range;
use crate::parse::spec_range_str;

verus! {

/// Every valid single token `Name: K` parses to that name and start
/// value, with no end.
#[verifier::rlimit(60)]
pub proof fn lemma_parse_single_token(nm: Seq<char>, ds: Seq<char>)
    requires
        is_ident_seq(nm),
        !is_keyword(nm),
        is_digit_seq(ds),
        dec_val(ds, 0, ds.len() as int) <= u64::MAX,
    ensures
        spec_range_str(nm + ": "@ + ds) == Ok::<NamedRangeV, int>(
            NamedRangeV {
                name: nm,
                start: dec_val(ds, 0, ds.len() as int) as u64,
                end: None,
            },
        ),
{
    reveal_strlit(": ");
    let s = nm + ": "@ + ds;
    let ln = nm.len() as int;
    let ld = ds.len() as int;
    assert(s.subrange(0, ln) =~= nm);
    assert(!is_keyword(s.subrange(0, ln)));
    assert(s.len() == ln + 2 + ld);
    assert(s[ln] == ':');
    assert(s[ln + 1] == ' ');
    assert(ws_end(s, 0) == 0);
    lemma_ident_end_exact(s, 0, ln);
    assert(ws_end(s, ln) == ln);
    assert(ws_end(s, ln + 1) == ws_end(s, ln + 2));
    assert(ws_end(s, ln + 2) == ln + 2);
    assert(s.subrange(ln + 2, ln + 2 + ld) =~= ds);
    assert(ds.subrange(0, ld) =~= ds);
    lemma_digits_end_exact(s, ln + 2, ln + 2 + ld);
    lemma_dec_val_eq(s, ln + 2, ds, 0, ld);
    assert(ws_end(s, ln + 2 + ld) == s.len());
    assert(s.subrange(0, ln) =~= nm);
}

/// Every valid range token `Name: K..M` parses to that name, start `K`
/// and end `M`.
#[verifier::rlimit(60)]
pub proof fn lemma_parse_range_token(nm: Seq<char>, ds1: Seq<char>, ds2: Seq<char>)
    requires
        is_ident_seq(nm),
        !is_keyword(nm),
        is_digit_seq(ds1),
        is_digit_seq(ds2),
        dec_val(ds1, 0, ds1.len() as int) <= u64::MAX,
        dec_val(ds2, 0, ds2.len() as int) <= u64::MAX,
    ensures
        spec_range_str(nm + ": "@ + ds1 + ".."@ + ds2) == Ok::<NamedRangeV, int>(
            NamedRangeV {
                name: nm,
                start: dec_val(ds1, 0, ds1.len() as int) as u64,
                end: Some(dec_val(ds2, 0, ds2.len() as int) as u64),
            },
        ),
{
    reveal_strlit(": ");
    reveal_strlit("..");
    let s = nm + ": "@ + ds1 + ".."@ + ds2;
    let ln = nm.len() as int;
    let l1 = ds1.len() as int;
    let l2 = ds2.len() as int;
    assert(s.subrange(0, ln) =~= nm);
    assert(!is_keyword(s.subrange(0, ln)));
    let e = ln + 2 + l1;
    assert(s.len() == e + 2 + l2);
    assert(s[ln] == ':');
    assert(s[ln + 1] == ' ');
    assert(s[e] == '.');
    assert(s[e + 1] == '.');
    assert(ws_end(s, 0) == 0);
    lemma_ident_end_exact(s, 0, ln);
    assert(ws_end(s, ln) == ln);
    assert(ws_end(s, ln + 1) == ws_end(s, ln + 2));
    assert(ws_end(s, ln + 2) == ln + 2);
    assert(s.subrange(ln + 2, e) =~= ds1);
    assert(ds1.subrange(0, l1) =~= ds1);
    lemma_digits_end_exact(s, ln + 2, e);
    lemma_dec_val_eq(s, ln + 2, ds1, 0, l1);
    assert(ws_end(s, e) == e);
    assert(ws_end(s, e + 2) == e + 2);
    assert(s.subrange(e + 2, e + 2 + l2) =~= ds2);
    assert(ds2.subrange(0, l2) =~= ds2);
    lemma_digits_end_exact(s, e + 2, e + 2 + l2);
    lemma_dec_val_eq(s, e + 2, ds2, 0, l2);
    assert(ws_end(s, e + 2 + l2) == s.len());
    assert(s.subrange(0, ln) =~= nm);
}

/// A dangling `Name: K..` (nothing after the dots) is a syntax error at
/// the end of the input: once the dots are seen, the second integer is
/// mandatory.
#[verifier::rlimit(60)]
pub proof fn lemma_dangling_dots(nm: Seq<char>, ds: Seq<char>)
    requires
        is_ident_seq(nm),
        !is_keyword(nm),
        is_digit_seq(ds),
        dec_val(ds, 0, ds.len() as int) <= u64::MAX,
    ensures
        spec_range_str(nm + ": "@ + ds + ".."@) == Err::<NamedRangeV, int>(
            (nm + ": "@ + ds + ".."@).len() as int,
        ),
{
    reveal_strlit(": ");
    reveal_strlit("..");
    let s = nm + ": "@ + ds + ".."@;
    let ln = nm.len() as int;
    let ld = ds.len() as int;
    assert(s.subrange(0, ln) =~= nm);
    assert(!is_keyword(s.subrange(0, ln)));
    let e = ln + 2 + ld;
    assert(s.len() == e + 2);
    assert(s[ln] == ':');
    assert(s[ln + 1] == ' ');
    assert(s[e] == '.');
    assert(s[e + 1] == '.');
    assert(ws_end(s, 0) == 0);
    lemma_ident_end_exact(s, 0, ln);
    assert(ws_end(s, ln) == ln);
    assert(ws_end(s, ln + 1) == ws_end(s, ln + 2));
    assert(ws_end(s, ln + 2) == ln + 2);
    assert(s.subrange(ln + 2, e) =~= ds);
    assert(ds.subrange(0, ld) =~= ds);
    lemma_digits_end_exact(s, ln + 2, e);
    lemma_dec_val_eq(s, ln + 2, ds, 0, ld);
    assert(ws_end(s, e) == e);
    assert(ws_end(s, e + 2) == e + 2);
    assert(digits_end(s, e + 2) == e + 2);
}

/// Appending a comma after a complete range token leaves its parse
/// unchanged: the comma can neither extend any scanned piece nor
/// complete a dots marker.
pub proof fn lemma_spec_range_push_comma(s: Seq<char>, i: int)
    requires
        0 <= i <= s.len(),
        spec_range(s, i) is Ok,
    ensures
        spec_range(s.push(','), i) == spec_range(s, i),
{
    let s2 = s.push(',');
    let a = ws_end(s, i);
    lemma_ws_end(s, i);
    lemma_ws_end_push(s, i, ',');
    assert(s2[a] == s[a]);
    let b = ident_end(s, a);
    lemma_ident_end(s, a);
    lemma_ident_end_push(s, a, ',');
    assert(s2.subrange(a, b) =~= s.subrange(a, b));
    let c = ws_end(s, b);
    lemma_ws_end(s, b);
    lemma_ws_end_push(s, b, ',');
    assert(s2[c] == s[c]);
    let d = ws_end(s, c + 1);
    lemma_ws_end(s, c + 1);
    lemma_ws_end_push(s, c + 1, ',');
    let e = digits_end(s, d);
    lemma_digits_end(s, d);
    lemma_digits_end_push(s, d, ',');
    lemma_dec_val_push(s, d, e, ',');
    let f = ws_end(s, e);
    lemma_ws_end(s, e);
    lemma_ws_end_push(s, e, ',');
    if f + 1 < s.len() && s[f] == '.' && s[f + 1] == '.' {
        assert(s2[f] == s[f]);
        assert(s2[f + 1] == s[f + 1]);
        let g = ws_end(s, f + 2);
        lemma_ws_end(s, f + 2);
        lemma_ws_end_push(s, f + 2, ',');
        let h = digits_end(s, g);
        lemma_digits_end(s, g);
        lemma_digits_end_push(s, g, ',');
        lemma_dec_val_push(s, g, h, ',');
    } else {
        if f + 1 < s2.len() && s2[f] == '.' && s2[f + 1] == '.' {
            if f + 1 < s.len() {
                assert(s2[f] == s[f]);
                assert(s2[f + 1] == s[f + 1]);
                assert(false);
            } else if f < s.len() {
                assert(s2[f + 1] == ',');
                assert(false);
            } else {
                assert(s2[f] == ',');
                assert(false);
            }
        }
    }
}

/// Appending a comma to a fully consumed, nonempty range list that does
/// not already end in one: the same ranges parse, and the trailing comma
/// is consumed.
pub proof fn lemma_spec_list_push_comma(s: Seq<char>, i: int)
    requires
        0 <= i <= s.len(),
        spec_list(s, i) is Ok,
        spec_list(s, i)->Ok_0.0.len() > 0,
        ws_end(s, spec_list(s, i)->Ok_0.1) == s.len(),
        s[spec_list(s, i)->Ok_0.1 - 1] != ',',
    ensures
        spec_list(s.push(','), i) == Ok::<(Seq<NamedRangeV>, int), int>(
            (spec_list(s, i)->Ok_0.0, s.len() as int + 1),
        ),
    decreases s.len() - i,
{
    let s2 = s.push(',');
    let l = spec_list(s, i)->Ok_0.0;
    let j = spec_list(s, i)->Ok_0.1;
    let a = ws_end(s, i);
    lemma_ws_end(s, i);
    lemma_ws_end_push(s, i, ',');
    assert(a < s.len() && s[a] != '}');
    assert(s2[a] == s[a]);
    let r = spec_range(s, i)->Ok_0.0;
    let j1 = spec_range(s, i)->Ok_0.1;
    lemma_spec_range_bounds(s, i);
    lemma_spec_range_push_comma(s, i);
    let k = ws_end(s, j1);
    lemma_ws_end(s, j1);
    lemma_ws_end_push(s, j1, ',');
    if i <= k && k < s.len() && s[k] == ',' {
        let lr = spec_list(s, k + 1)->Ok_0.0;
        let m = spec_list(s, k + 1)->Ok_0.1;
        if lr.len() == 0 {
            assert(m == k + 1);
            assert(s[j - 1] == ',');
            assert(false);
        }
        lemma_spec_list_push_comma(s, k + 1);
        assert(s2[k] == s[k]);
        assert(spec_list(s2, i) == Ok::<(Seq<NamedRangeV>, int), int>(
            (seq![r] + lr, s.len() as int + 1),
        ));
    } else {
        assert(l == seq![r] && j == j1);
        assert(k == s.len());
        assert(s2[k] == ',');
        assert(ws_end(s2, s.len() as int + 1) == s.len() as int + 1);
        assert(spec_list(s2, s.len() as int + 1) == Ok::<(Seq<NamedRangeV>, int), int>(
            (Seq::empty(), s.len() as int + 1),
        ));
        assert(seq![r] + Seq::<NamedRangeV>::empty() =~= seq![r]);
    }
}

/// Trailing-comma tolerance: appending a comma to a complete, nonempty
/// range list that does not already end in one parses to the very same
/// list.
pub proof fn lemma_trailing_comma(s: Seq<char>)
    requires
        spec_list_str(s) is Ok,
        spec_list_str(s)->Ok_0.len() > 0,
        s[spec_list(s, 0)->Ok_0.1 - 1] != ',',
    ensures
        spec_list_str(s.push(',')) == spec_list_str(s),
{
    lemma_spec_list_push_comma(s, 0);
    let s2 = s.push(',');
    assert(ws_end(s2, s.len() as int + 1) == s.len() as int + 1);
}

} // verus!
