//! The declaration grammar and its recursive-descent parser.
//!
//! Grammar (whitespace permitted between tokens):
//! ```text
//! declaration := annotation* identifier '{' range_list '}'
//! range_list  := (range_token (',' range_token)* ','?)?
//! range_token := identifier ':' integer ('..' integer)?
//! annotation  := '#' '[' <balanced bracket text> ']'
//! ```
//!
//! Each production has a specification-level parser over `Seq<char>`
//! returning either the parsed value with the position just past it, or
//! the position of the offending character. The executable parsers are
//! proved to agree with those functions exactly.
//!
//! Identifiers are ASCII (a letter or `_`, then letters, digits, `_`),
//! and a host-language keyword is rejected as a name, since it could not
//! stand in the generated code. Annotation text is scanned for balance
//! only, with
//! double-quoted string literals (and their backslash escapes) skipped;
//! other literal forms are not special-cased.

use vstd::prelude::*;

use crate::lexer::dec_val;
use crate::lexer::digits_end;
use crate::lexer::ident_end;
use crate::lexer::is_ident_start_char;
use crate::lexer::is_keyword;
use crate::lexer::lemma_digits_end;
use crate::lexer::lemma_ident_end;
use crate::lexer::lemma_ws_end;
use crate::lexer::digits_value;
use crate::lexer::scan_digits;
use crate::lexer::scan_ident;
use crate::lexer::skip_ws;
use crate::lexer::ws_end;

verus! {

/// A malformed or missing grammar element, reported at the position of
/// the offending character.
#[derive(Debug, PartialEq, Eq, Structural, Clone, Copy)]
pub struct SyntaxError {
    pub pos: usize,
}

/// One named range: a name bound to a single value (`end` absent) or to
/// the half-open interval `[start, end)`.
#[derive(Debug, PartialEq, Eq, Clone)]
pub struct NamedRange {
    pub name: String,
    pub start: u64,
    pub end: Option<u64>,
}

/// Mathematical model of a [`NamedRange`].
pub ghost struct NamedRangeV {
    pub name: Seq<char>,
    pub start: u64,
    pub end: Option<u64>,
}

impl View for NamedRange {
    type V = NamedRangeV;

    open spec fn view(&self) -> NamedRangeV {
        NamedRangeV { name: self.name@, start: self.start, end: self.end }
    }
}

/// An ordered list of named ranges; order is semantically significant.
#[derive(Debug, PartialEq, Eq, Clone)]
pub struct NamedRangeList {
    pub list: Vec<NamedRange>,
}

impl View for NamedRangeList {
    type V = Seq<NamedRangeV>;

    open spec fn view(&self) -> Seq<NamedRangeV> {
        self.list@.map_values(|r: NamedRange| r@)
    }
}

/// Parse one range token starting at `i`: `identifier ':' integer`,
/// optionally followed by `'..' integer`. Once `..` is seen, the second
/// integer is mandatory. An integer that does not fit in `u64` is
/// malformed, and a keyword is no identifier. No check relates the two
/// integers' order.
pub open spec fn spec_range(s: Seq<char>, i: int) -> Result<(NamedRangeV, int), int>
    recommends
        0 <= i <= s.len(),
{
    let a = ws_end(s, i);
    if !(a < s.len() && is_ident_start_char(s[a])) {
        Err(a)
    } else {
        let b = ident_end(s, a);
        let c = ws_end(s, b);
        if is_keyword(s.subrange(a, b)) {
            Err(a)
        } else if !(c < s.len() && s[c] == ':') {
            Err(c)
        } else {
            let d = ws_end(s, c + 1);
            let e = digits_end(s, d);
            if e == d || dec_val(s, d, e) > u64::MAX {
                Err(d)
            } else {
                let f = ws_end(s, e);
                if f + 1 < s.len() && s[f] == '.' && s[f + 1] == '.' {
                    let g = ws_end(s, f + 2);
                    let h = digits_end(s, g);
                    if h == g || dec_val(s, g, h) > u64::MAX {
                        Err(g)
                    } else {
                        Ok(
                            (
                                NamedRangeV {
                                    name: s.subrange(a, b),
                                    start: dec_val(s, d, e) as u64,
                                    end: Some(dec_val(s, g, h) as u64),
                                },
                                h,
                            ),
                        )
                    }
                } else {
                    Ok(
                        (
                            NamedRangeV {
                                name: s.subrange(a, b),
                                start: dec_val(s, d, e) as u64,
                                end: None,
                            },
                            e,
                        ),
                    )
                }
            }
        }
    }
}

/// A successful range-token parse begins after `i` and ends within the
/// input.
pub proof fn lemma_spec_range_bounds(s: Seq<char>, i: int)
    requires
        0 <= i <= s.len(),
        spec_range(s, i) is Ok,
    ensures
        i < spec_range(s, i)->Ok_0.1 <= s.len(),
{
    let a = ws_end(s, i);
    lemma_ws_end(s, i);
    let b = ident_end(s, a);
    lemma_ident_end(s, a);
    let c = ws_end(s, b);
    lemma_ws_end(s, b);
    let d = ws_end(s, c + 1);
    lemma_ws_end(s, c + 1);
    let e = digits_end(s, d);
    lemma_digits_end(s, d);
    let f = ws_end(s, e);
    lemma_ws_end(s, e);
    if f + 1 < s.len() && s[f] == '.' && s[f + 1] == '.' {
        let g = ws_end(s, f + 2);
        lemma_ws_end(s, f + 2);
        lemma_digits_end(s, g);
    }
}

/// Parse zero or more comma-separated range tokens starting at `i`. The
/// list ends before a closing brace or at the end of the input; a single
/// trailing comma is permitted. The position returned is the one just
/// past the last consumed token or trailing comma.
pub open spec fn spec_list(s: Seq<char>, i: int) -> Result<(Seq<NamedRangeV>, int), int>
    recommends
        0 <= i <= s.len(),
    decreases s.len() - i,
{
    let a = ws_end(s, i);
    if !(0 <= a < s.len()) || s[a] == '}' {
        Ok((Seq::empty(), i))
    } else {
        match spec_range(s, i) {
            Err(p) => Err(p),
            Ok((r, j)) => {
                let k = ws_end(s, j);
                // On any reachable path `i < j <= k`; the explicit test
                // keeps the recursion well-founded.
                if i <= k && k < s.len() && s[k] == ',' {
                    match spec_list(s, k + 1) {
                        Err(p) => Err(p),
                        Ok((rest, m)) => Ok((seq![r] + rest, m)),
                    }
                } else {
                    Ok((seq![r], j))
                }
            },
        }
    }
}

impl NamedRange {
    /// Parse one range token starting at position `from`; on success the
    /// returned position is just past the token.
    pub fn parse(s: &str, from: usize) -> (r: Result<(NamedRange, usize), SyntaxError>)
        requires
            from <= s@.len(),
        ensures
            match r {
                Ok((t, j)) => spec_range(s@, from as int) == Ok::<(NamedRangeV, int), int>(
                    (t@, j as int),
                ) && from < j <= s@.len(),
                Err(e) => spec_range(s@, from as int) == Err::<(NamedRangeV, int), int>(
                    e.pos as int,
                ) && e.pos <= s@.len(),
            },
    {
        let n = s.unicode_len();
        let a = skip_ws(s, from);
        if !(a < n && crate::lexer::ident_start_char(s.get_char(a))) {
            return Err(SyntaxError { pos: a });
        }
        let b = scan_ident(s, a);
        let nm = s.substring_char(a, b);
        if crate::lexer::keyword(nm) {
            return Err(SyntaxError { pos: a });
        }
        let c = skip_ws(s, b);
        if !(c < n && s.get_char(c) == ':') {
            return Err(SyntaxError { pos: c });
        }
        let d = skip_ws(s, c + 1);
        let e = scan_digits(s, d);
        if e == d {
            return Err(SyntaxError { pos: d });
        }
        proof {
            lemma_digits_end(s@, d as int);
        }
        let start = match digits_value(s, d, e) {
            Some(v) => v,
            None => {
                return Err(SyntaxError { pos: d });
            },
        };
        let f = skip_ws(s, e);
        if f < n && f + 1 < n && s.get_char(f) == '.' && s.get_char(f + 1) == '.' {
            let g = skip_ws(s, f + 2);
            let h = scan_digits(s, g);
            if h == g {
                return Err(SyntaxError { pos: g });
            }
            proof {
                lemma_digits_end(s@, g as int);
            }
            let end = match digits_value(s, g, h) {
                Some(v) => v,
                None => {
                    return Err(SyntaxError { pos: g });
                },
            };
            let name = nm.to_owned();
            Ok((NamedRange { name, start, end: Some(end) }, h))
        } else {
            let name = nm.to_owned();
            Ok((NamedRange { name, start, end: None }, e))
        }
    }
}

impl NamedRangeList {
    /// Parse a comma-separated list of range tokens starting at `from`,
    /// up to a closing brace or the end of the input; a single trailing
    /// comma is accepted. On success the returned position is just past
    /// the last consumed token or trailing comma.
    pub fn parse(s: &str, from: usize) -> (r: Result<(NamedRangeList, usize), SyntaxError>)
        requires
            from <= s@.len(),
        ensures
            match r {
                Ok((l, j)) => spec_list(s@, from as int) == Ok::<(Seq<NamedRangeV>, int), int>(
                    (l@, j as int),
                ) && from <= j <= s@.len(),
                Err(e) => spec_list(s@, from as int) == Err::<(Seq<NamedRangeV>, int), int>(
                    e.pos as int,
                ) && e.pos <= s@.len(),
            },
    {
        let n = s.unicode_len();
        let mut acc: Vec<NamedRange> = Vec::new();
        let mut cur = from;
        proof {
            assert(acc@.map_values(|t: NamedRange| t@) =~= Seq::<NamedRangeV>::empty());
        }
        loop
            invariant
                from <= cur <= n,
                n == s@.len(),
                spec_list(s@, from as int) == (match spec_list(s@, cur as int) {
                    Ok((rest, m)) => Ok::<(Seq<NamedRangeV>, int), int>(
                        (acc@.map_values(|t: NamedRange| t@) + rest, m),
                    ),
                    Err(p) => Err(p),
                }),
            decreases n - cur,
        {
            let ghost accv = acc@.map_values(|t: NamedRange| t@);
            let a = skip_ws(s, cur);
            if a >= n || s.get_char(a) == '}' {
                proof {
                    assert(spec_list(s@, cur as int) == Ok::<(Seq<NamedRangeV>, int), int>(
                        (Seq::empty(), cur as int),
                    ));
                    assert(accv + Seq::<NamedRangeV>::empty() =~= accv);
                }
                return Ok((NamedRangeList { list: acc }, cur));
            }
            let (tok, j) = match NamedRange::parse(s, cur) {
                Ok(p) => p,
                Err(e) => {
                    return Err(e);
                },
            };
            let k = skip_ws(s, j);
            if k < n && s.get_char(k) == ',' {
                proof {
                    assert(spec_list(s@, cur as int) == (match spec_list(s@, k + 1) {
                        Ok((rest, m)) => Ok::<(Seq<NamedRangeV>, int), int>(
                            (seq![tok@] + rest, m),
                        ),
                        Err(p) => Err(p),
                    }));
                }
                acc.push(tok);
                proof {
                    assert(acc@.map_values(|t: NamedRange| t@) =~= accv.push(tok@));
                    if spec_list(s@, k + 1) is Ok {
                        let rest = spec_list(s@, k + 1)->Ok_0.0;
                        assert(accv + (seq![tok@] + rest) =~= accv.push(tok@) + rest);
                    }
                }
                cur = k + 1;
            } else {
                proof {
                    assert(spec_list(s@, cur as int) == Ok::<(Seq<NamedRangeV>, int), int>(
                        (seq![tok@], j as int),
                    ));
                }
                acc.push(tok);
                proof {
                    assert(accv + seq![tok@] =~= acc@.map_values(|t: NamedRange| t@));
                }
                return Ok((NamedRangeList { list: acc }, j));
            }
        }
    }
}

/// Position just past the `"` that closes a string literal whose body
/// starts at `i` (just after the opening quote), honouring backslash
/// escapes; `None` when the input ends first.
pub open spec fn str_lit_end(s: Seq<char>, i: int) -> Option<int>
    recommends
        0 <= i <= s.len(),
    decreases s.len() - i,
{
    if !(0 <= i < s.len()) {
        None
    } else if s[i] == '"' {
        Some(i + 1)
    } else if s[i] == '\\' {
        if i + 2 <= s.len() {
            str_lit_end(s, i + 2)
        } else {
            None
        }
    } else {
        str_lit_end(s, i + 1)
    }
}

/// Position just past the `]` that closes `depth` open brackets, scanning
/// from `i`; brackets inside double-quoted string literals do not count.
/// `None` when the input ends first.
pub open spec fn bracket_end(s: Seq<char>, i: int, depth: nat) -> Option<int>
    recommends
        0 <= i <= s.len(),
        depth > 0,
    decreases s.len() - i,
{
    if !(0 <= i < s.len()) {
        None
    } else if s[i] == ']' {
        if depth <= 1 {
            Some(i + 1)
        } else {
            bracket_end(s, i + 1, (depth - 1) as nat)
        }
    } else if s[i] == '[' {
        bracket_end(s, i + 1, depth + 1)
    } else if s[i] == '"' {
        match str_lit_end(s, i + 1) {
            Some(j) => {
                // On any reachable path `i < j <= s.len()`; the explicit
                // test keeps the recursion well-founded.
                if i < j <= s.len() {
                    bracket_end(s, j, depth)
                } else {
                    None
                }
            },
            None => None,
        }
    } else {
        bracket_end(s, i + 1, depth)
    }
}

pub proof fn lemma_bracket_end_bounds(s: Seq<char>, i: int, depth: nat)
    requires
        bracket_end(s, i, depth) is Some,
    ensures
        i < bracket_end(s, i, depth)->Some_0 <= s.len(),
    decreases s.len() - i,
{
    if 0 <= i < s.len() {
        if s[i] == ']' {
            if depth > 1 {
                lemma_bracket_end_bounds(s, i + 1, (depth - 1) as nat);
            }
        } else if s[i] == '[' {
            lemma_bracket_end_bounds(s, i + 1, depth + 1);
        } else if s[i] == '"' {
            if str_lit_end(s, i + 1) is Some {
                let j = str_lit_end(s, i + 1)->Some_0;
                if i < j <= s.len() {
                    lemma_bracket_end_bounds(s, j, depth);
                }
            }
        } else {
            lemma_bracket_end_bounds(s, i + 1, depth);
        }
    }
}

/// Collect zero or more annotation blocks starting at `i`, returning the
/// annotations' verbatim text and the position just past the last one.
/// A malformed block is not an error: collection simply stops before it
/// (the caller's next demand then fails there if the text is not a
/// declaration).
pub open spec fn spec_annotations(s: Seq<char>, i: int) -> (Seq<Seq<char>>, int)
    recommends
        0 <= i <= s.len(),
    decreases s.len() - i,
{
    let a = ws_end(s, i);
    if a < s.len() && s[a] == '#' {
        let q = ws_end(s, a + 1);
        if q < s.len() && s[q] == '[' {
            match bracket_end(s, q + 1, 1) {
                Some(j) => {
                    // On any reachable path `i < j <= s.len()`; the
                    // explicit test keeps the recursion well-founded.
                    if i < j <= s.len() {
                        let (rest, m) = spec_annotations(s, j);
                        (seq![s.subrange(a, j)] + rest, m)
                    } else {
                        (Seq::empty(), i)
                    }
                },
                None => (Seq::empty(), i),
            }
        } else {
            (Seq::empty(), i)
        }
    } else {
        (Seq::empty(), i)
    }
}

/// The entire input of one declaration: optional annotations, a type
/// name, and a brace-delimited list of named ranges.
#[derive(Debug, PartialEq, Eq, Clone)]
pub struct RangedEnum {
    pub attributes: Vec<String>,
    pub name: String,
    pub variants: NamedRangeList,
}

/// Mathematical model of a [`RangedEnum`].
pub ghost struct RangedEnumV {
    pub attributes: Seq<Seq<char>>,
    pub name: Seq<char>,
    pub variants: Seq<NamedRangeV>,
}

impl View for RangedEnum {
    type V = RangedEnumV;

    open spec fn view(&self) -> RangedEnumV {
        RangedEnumV {
            attributes: self.attributes@.map_values(|a: String| a@),
            name: self.name@,
            variants: self.variants@,
        }
    }
}

/// Parse a whole declaration starting at `i`: annotations (kept
/// verbatim), the type name, `'{'`, the range list, `'}'`.
pub open spec fn spec_decl(s: Seq<char>, i: int) -> Result<(RangedEnumV, int), int>
    recommends
        0 <= i <= s.len(),
{
    let (attrs, p) = spec_annotations(s, i);
    let a = ws_end(s, p);
    if !(a < s.len() && is_ident_start_char(s[a])) {
        Err(a)
    } else {
        let b = ident_end(s, a);
        let c = ws_end(s, b);
        if is_keyword(s.subrange(a, b)) {
            Err(a)
        } else if !(c < s.len() && s[c] == '{') {
            Err(c)
        } else {
            match spec_list(s, c + 1) {
                Err(p2) => Err(p2),
                Ok((l, j)) => {
                    let k = ws_end(s, j);
                    if k < s.len() && s[k] == '}' {
                        Ok(
                            (
                                RangedEnumV {
                                    attributes: attrs,
                                    name: s.subrange(a, b),
                                    variants: l,
                                },
                                k + 1,
                            ),
                        )
                    } else {
                        Err(k)
                    }
                },
            }
        }
    }
}

/// Scan past the `"` closing a string literal whose body starts at `i`.
fn scan_str_lit(s: &str, i: usize) -> (r: Option<usize>)
    requires
        i <= s@.len(),
    ensures
        match r {
            Some(j) => str_lit_end(s@, i as int) == Some(j as int) && i < j <= s@.len(),
            None => str_lit_end(s@, i as int) is None,
        },
{
    let n = s.unicode_len();
    let mut cur = i;
    loop
        invariant
            i <= cur <= n,
            n == s@.len(),
            str_lit_end(s@, i as int) == str_lit_end(s@, cur as int),
        decreases n - cur,
    {
        if cur >= n {
            return None;
        }
        let c = s.get_char(cur);
        if c == '"' {
            return Some(cur + 1);
        } else if c == '\\' {
            if n - cur >= 2 {
                cur = cur + 2;
            } else {
                return None;
            }
        } else {
            cur = cur + 1;
        }
    }
}

/// Scan past the `]` closing `depth` open brackets, starting at `i`;
/// string literals are skipped whole.
fn scan_brackets(s: &str, i: usize, depth: usize) -> (r: Option<usize>)
    requires
        i <= s@.len(),
        depth >= 1,
        depth <= i,
    ensures
        match r {
            Some(j) => bracket_end(s@, i as int, depth as nat) == Some(j as int) && i < j
                <= s@.len(),
            None => bracket_end(s@, i as int, depth as nat) is None,
        },
{
    let n = s.unicode_len();
    let mut cur = i;
    let mut d = depth;
    loop
        invariant
            i <= cur <= n,
            n == s@.len(),
            1 <= d <= cur,
            bracket_end(s@, i as int, depth as nat) == bracket_end(s@, cur as int, d as nat),
        decreases n - cur,
    {
        if cur >= n {
            return None;
        }
        let c = s.get_char(cur);
        if c == ']' {
            if d == 1 {
                proof {
                    lemma_bracket_end_bounds(s@, i as int, depth as nat);
                }
                return Some(cur + 1);
            }
            d = d - 1;
            cur = cur + 1;
        } else if c == '[' {
            d = d + 1;
            cur = cur + 1;
        } else if c == '"' {
            match scan_str_lit(s, cur + 1) {
                Some(j) => {
                    cur = j;
                },
                None => {
                    return None;
                },
            }
        } else {
            cur = cur + 1;
        }
    }
}

/// Collect annotation blocks starting at `from`; never fails (a
/// malformed block stops collection).
fn parse_annotations(s: &str, from: usize) -> (r: (Vec<String>, usize))
    requires
        from <= s@.len(),
    ensures
        spec_annotations(s@, from as int) == (
            r.0@.map_values(|a: String| a@),
            r.1 as int,
        ),
        from <= r.1 <= s@.len(),
{
    let n = s.unicode_len();
    let mut acc: Vec<String> = Vec::new();
    let mut cur = from;
    proof {
        assert(acc@.map_values(|a: String| a@) =~= Seq::<Seq<char>>::empty());
    }
    loop
        invariant
            from <= cur <= n,
            n == s@.len(),
            spec_annotations(s@, from as int) == {
                let (rest, m) = spec_annotations(s@, cur as int);
                (acc@.map_values(|a: String| a@) + rest, m)
            },
        decreases n - cur,
    {
        let ghost accv = acc@.map_values(|a: String| a@);
        let a = skip_ws(s, cur);
        if !(a < n && s.get_char(a) == '#') {
            proof {
                assert(accv + Seq::<Seq<char>>::empty() =~= accv);
            }
            return (acc, cur);
        }
        let q = skip_ws(s, a + 1);
        if !(q < n && s.get_char(q) == '[') {
            proof {
                assert(accv + Seq::<Seq<char>>::empty() =~= accv);
            }
            return (acc, cur);
        }
        let j = match scan_brackets(s, q + 1, 1) {
            Some(j) => j,
            None => {
                proof {
                    assert(accv + Seq::<Seq<char>>::empty() =~= accv);
                }
                return (acc, cur);
            },
        };
        let text = s.substring_char(a, j).to_owned();
        proof {
            let (rest, m) = spec_annotations(s@, j as int);
            assert(spec_annotations(s@, cur as int) == (
                seq![s@.subrange(a as int, j as int)] + rest,
                m,
            ));
            assert(accv + (seq![text@] + rest) =~= accv.push(text@) + rest);
        }
        acc.push(text);
        proof {
            assert(acc@.map_values(|a2: String| a2@) =~= accv.push(s@.subrange(a as int, j as int)));
        }
        cur = j;
    }
}

impl RangedEnum {
    /// Parse a whole declaration starting at position `from`; on success
    /// the returned position is just past the closing brace.
    pub fn parse(s: &str, from: usize) -> (r: Result<(RangedEnum, usize), SyntaxError>)
        requires
            from <= s@.len(),
        ensures
            match r {
                Ok((d, j)) => spec_decl(s@, from as int) == Ok::<(RangedEnumV, int), int>(
                    (d@, j as int),
                ) && from <= j <= s@.len(),
                Err(e) => spec_decl(s@, from as int) == Err::<(RangedEnumV, int), int>(
                    e.pos as int,
                ) && e.pos <= s@.len(),
            },
    {
        let n = s.unicode_len();
        let (attributes, p) = parse_annotations(s, from);
        let a = skip_ws(s, p);
        if !(a < n && crate::lexer::ident_start_char(s.get_char(a))) {
            return Err(SyntaxError { pos: a });
        }
        let b = scan_ident(s, a);
        let nm = s.substring_char(a, b);
        if crate::lexer::keyword(nm) {
            return Err(SyntaxError { pos: a });
        }
        let c = skip_ws(s, b);
        if !(c < n && s.get_char(c) == '{') {
            return Err(SyntaxError { pos: c });
        }
        let (variants, j) = match NamedRangeList::parse(s, c + 1) {
            Ok(p2) => p2,
            Err(e) => {
                return Err(e);
            },
        };
        let k = skip_ws(s, j);
        if !(k < n && s.get_char(k) == '}') {
            return Err(SyntaxError { pos: k });
        }
        let name = nm.to_owned();
        Ok((RangedEnum { attributes, name, variants }, k + 1))
    }
}

/// Parse a complete input as one range token: nothing but whitespace may
/// follow it.
pub open spec fn spec_range_str(s: Seq<char>) -> Result<NamedRangeV, int> {
    match spec_range(s, 0) {
        Ok((t, j)) => if ws_end(s, j) == s.len() {
            Ok(t)
        } else {
            Err(ws_end(s, j))
        },
        Err(p) => Err(p),
    }
}

/// Parse a complete input as a range list: nothing but whitespace may
/// follow it.
pub open spec fn spec_list_str(s: Seq<char>) -> Result<Seq<NamedRangeV>, int> {
    match spec_list(s, 0) {
        Ok((l, j)) => if ws_end(s, j) == s.len() {
            Ok(l)
        } else {
            Err(ws_end(s, j))
        },
        Err(p) => Err(p),
    }
}

/// Parse a complete input as a declaration: nothing but whitespace may
/// follow it.
pub open spec fn spec_decl_str(s: Seq<char>) -> Result<RangedEnumV, int> {
    match spec_decl(s, 0) {
        Ok((d, j)) => if ws_end(s, j) == s.len() {
            Ok(d)
        } else {
            Err(ws_end(s, j))
        },
        Err(p) => Err(p),
    }
}

impl NamedRange {
    /// Parse a complete input as one range token.
    pub fn parse_str(s: &str) -> (r: Result<NamedRange, SyntaxError>)
        ensures
            match r {
                Ok(t) => spec_range_str(s@) == Ok::<NamedRangeV, int>(t@),
                Err(e) => spec_range_str(s@) == Err::<NamedRangeV, int>(e.pos as int),
            },
    {
        let n = s.unicode_len();
        match NamedRange::parse(s, 0) {
            Ok((t, j)) => {
                let k = skip_ws(s, j);
                if k == n {
                    Ok(t)
                } else {
                    Err(SyntaxError { pos: k })
                }
            },
            Err(e) => Err(e),
        }
    }
}

impl NamedRangeList {
    /// Parse a complete input as a range list.
    pub fn parse_str(s: &str) -> (r: Result<NamedRangeList, SyntaxError>)
        ensures
            match r {
                Ok(l) => spec_list_str(s@) == Ok::<Seq<NamedRangeV>, int>(l@),
                Err(e) => spec_list_str(s@) == Err::<Seq<NamedRangeV>, int>(e.pos as int),
            },
    {
        let n = s.unicode_len();
        match NamedRangeList::parse(s, 0) {
            Ok((l, j)) => {
                let k = skip_ws(s, j);
                if k == n {
                    Ok(l)
                } else {
                    Err(SyntaxError { pos: k })
                }
            },
            Err(e) => Err(e),
        }
    }
}

impl RangedEnum {
    /// Parse a complete input as a declaration.
    pub fn parse_str(s: &str) -> (r: Result<RangedEnum, SyntaxError>)
        ensures
            match r {
                Ok(d) => spec_decl_str(s@) == Ok::<RangedEnumV, int>(d@),
                Err(e) => spec_decl_str(s@) == Err::<RangedEnumV, int>(e.pos as int),
            },
    {
        let n = s.unicode_len();
        match RangedEnum::parse(s, 0) {
            Ok((d, j)) => {
                let k = skip_ws(s, j);
                if k == n {
                    Ok(d)
                } else {
                    Err(SyntaxError { pos: k })
                }
            },
            Err(e) => Err(e),
        }
    }
}

} // verus!
