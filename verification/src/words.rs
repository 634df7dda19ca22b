//! The file-ingestion helper's computation: split a file's contents
//! into words on Unicode white space and render them as a fixed-size
//! array literal of string constants (with `"` and `\` escaped).
//! Reading the file itself is left to the caller.

use vstd::prelude::*;

verus! {

/// White space as the word splitter understands it: the Unicode
/// `White_Space` set, the same notion the host language's whitespace
/// splitting uses. This is wider than the declaration syntax's
/// between-token whitespace.
pub open spec fn is_split_ws(c: char) -> bool {
    let u = c as u32;
    (0x09 <= u && u <= 0x0D) || u == 0x20 || u == 0x85 || u == 0xA0 || u == 0x1680 || (0x2000 <= u
        && u <= 0x200A) || u == 0x2028 || u == 0x2029 || u == 0x202F || u == 0x205F || u == 0x3000
}

fn split_ws_char(c: char) -> (r: bool)
    ensures
        r == is_split_ws(c),
{
    let u = c as u32;
    (0x09 <= u && u <= 0x0D) || u == 0x20 || u == 0x85 || u == 0xA0 || u == 0x1680 || (0x2000 <= u
        && u <= 0x200A) || u == 0x2028 || u == 0x2029 || u == 0x202F || u == 0x205F || u == 0x3000
}

/// First position at or after `i` holding a character that is not white
/// space (or the end of the sequence).
pub open spec fn split_ws_end(s: Seq<char>, i: int) -> int
    recommends
        0 <= i <= s.len(),
    decreases s.len() - i,
{
    if 0 <= i < s.len() && is_split_ws(s[i]) {
        split_ws_end(s, i + 1)
    } else {
        i
    }
}

pub proof fn lemma_split_ws_end(s: Seq<char>, i: int)
    requires
        0 <= i <= s.len(),
    ensures
        i <= split_ws_end(s, i) <= s.len(),
        split_ws_end(s, i) < s.len() ==> !is_split_ws(s[split_ws_end(s, i)]),
    decreases s.len() - i,
{
    if i < s.len() && is_split_ws(s[i]) {
        lemma_split_ws_end(s, i + 1);
    }
}

/// Advance past white space starting at `i`.
fn skip_split_ws(s: &str, i: usize) -> (r: usize)
    requires
        i <= s@.len(),
    ensures
        r == split_ws_end(s@, i as int),
        i <= r <= s@.len(),
{
    let n = s.unicode_len();
    let mut j = i;
    while j < n && split_ws_char(s.get_char(j))
        invariant
            i <= j <= n,
            n == s@.len(),
            split_ws_end(s@, i as int) == split_ws_end(s@, j as int),
        decreases n - j,
    {
        j = j + 1;
    }
    j
}

/// First position at or after `i` holding white space (or the end of the
/// sequence): the end of the word starting at `i`.
pub open spec fn word_end(s: Seq<char>, i: int) -> int
    recommends
        0 <= i <= s.len(),
    decreases s.len() - i,
{
    if 0 <= i < s.len() && !is_split_ws(s[i]) {
        word_end(s, i + 1)
    } else {
        i
    }
}

pub proof fn lemma_word_end(s: Seq<char>, i: int)
    requires
        0 <= i <= s.len(),
    ensures
        i <= word_end(s, i) <= s.len(),
        word_end(s, i) < s.len() ==> is_split_ws(s[word_end(s, i)]),
        i < s.len() && !is_split_ws(s[i]) ==> i < word_end(s, i),
    decreases s.len() - i,
{
    if i < s.len() && !is_split_ws(s[i]) {
        lemma_word_end(s, i + 1);
    }
}

/// The words of `s` from position `i` on, in order, separated by
/// Unicode white space.
pub open spec fn words_from(s: Seq<char>, i: int) -> Seq<Seq<char>>
    recommends
        0 <= i <= s.len(),
    decreases s.len() - i,
{
    if !(0 <= i <= s.len()) {
        Seq::empty()
    } else {
        let a = split_ws_end(s, i);
        if !(a < s.len()) {
            Seq::empty()
        } else {
            let b = word_end(s, a);
            // On any reachable path `i <= a < b`; the explicit test
            // keeps the recursion well-founded.
            if i <= a < b <= s.len() {
                seq![s.subrange(a, b)] + words_from(s, b)
            } else {
                Seq::empty()
            }
        }
    }
}

/// A word's characters with `"` and `\` escaped by a backslash.
pub open spec fn escape_char(c: char) -> Seq<char> {
    if c == '"' || c == '\\' {
        seq!['\\', c]
    } else {
        seq![c]
    }
}

pub open spec fn escaped(w: Seq<char>) -> Seq<char>
    decreases w.len(),
{
    if w.len() == 0 {
        Seq::empty()
    } else {
        escape_char(w[0]) + escaped(w.drop_first())
    }
}

/// The words as quoted string constants separated by `", "`; the first
/// carries no separator.
pub open spec fn quoted_words(ws: Seq<Seq<char>>, first: bool) -> Seq<char>
    decreases ws.len(),
{
    if ws.len() == 0 {
        Seq::empty()
    } else {
        (if first {
            "\""@
        } else {
            ", \""@
        }) + escaped(ws[0]) + "\""@ + quoted_words(ws.drop_first(), false)
    }
}

/// The array literal holding the given words as string constants.
pub open spec fn words_array_text(ws: Seq<Seq<char>>) -> Seq<char> {
    "["@ + quoted_words(ws, true) + "]"@
}

/// Advance to the first white-space character at or after `i`.
fn scan_word(s: &str, i: usize) -> (r: usize)
    requires
        i <= s@.len(),
    ensures
        r == word_end(s@, i as int),
        i <= r <= s@.len(),
{
    let n = s.unicode_len();
    let mut j = i;
    while j < n && !split_ws_char(s.get_char(j))
        invariant
            i <= j <= n,
            n == s@.len(),
            word_end(s@, i as int) == word_end(s@, j as int),
        decreases n - j,
    {
        j = j + 1;
    }
    j
}

/// Append the characters `s[a..b)` with `"` and `\` escaped.
fn append_escaped(out: &mut String, s: &str, a: usize, b: usize)
    requires
        a <= b <= s@.len(),
    ensures
        final(out)@ == old(out)@ + escaped(s@.subrange(a as int, b as int)),
{
    let ghost w = s@.subrange(a as int, b as int);
    let mut i = a;
    proof {
        assert(w.skip(0) =~= w);
    }
    while i < b
        invariant
            a <= i <= b <= s@.len(),
            w == s@.subrange(a as int, b as int),
            out@ + escaped(w.skip(i - a)) == old(out)@ + escaped(w),
        decreases b - i,
    {
        let ghost pre = out@;
        let c = s.get_char(i);
        if c == '"' || c == '\\' {
            out.append("\\");
        }
        out.append(s.substring_char(i, i + 1));
        proof {
            reveal_strlit("\\");
            assert(w.skip(i - a)[0] == w[i - a]);
            assert(w[i - a] == s@[i as int]);
            assert(s@.subrange(i as int, i + 1 as int) =~= seq![s@[i as int]]);
            assert(w.skip(i - a).drop_first() =~= w.skip(i - a + 1));
            assert("\\"@ =~= seq!['\\']);
            assert(pre + escaped(w.skip(i - a)) =~= out@ + escaped(w.skip(i - a + 1)));
        }
        i = i + 1;
    }
    proof {
        assert(w.skip(b - a) =~= Seq::<char>::empty());
        assert(out@ + escaped(Seq::<char>::empty()) =~= out@);
    }
}

/// Render the words of `contents`, separated by Unicode white space, as
/// an array literal of string constants.
pub fn file_words(contents: &str) -> (r: String)
    ensures
        r@ == words_array_text(words_from(contents@, 0)),
{
    let ghost sv = contents@;
    let n = contents.unicode_len();
    let mut out = String::new();
    out.append("[");
    proof {
        assert(out@ =~= "["@);
    }
    let mut cur: usize = 0;
    let mut first = true;
    loop
        invariant
            cur <= n,
            n == sv.len(),
            sv == contents@,
            out@ + quoted_words(words_from(sv, cur as int), first) == "["@ + quoted_words(
                words_from(sv, 0),
                true,
            ),
        ensures
            split_ws_end(sv, cur as int) >= sv.len(),
        decreases n - cur,
    {
        let a = skip_split_ws(contents, cur);
        proof {
            lemma_split_ws_end(sv, cur as int);
        }
        if a >= n {
            break;
        }
        let b = scan_word(contents, a);
        proof {
            lemma_word_end(sv, a as int);
        }
        let ghost pre = out@;
        let ghost was_first = first;
        if first {
            out.append("\"");
        } else {
            out.append(", \"");
        }
        append_escaped(&mut out, contents, a, b);
        out.append("\"");
        proof {
            let rest = words_from(sv, b as int);
            assert(words_from(sv, cur as int) == seq![sv.subrange(a as int, b as int)] + rest);
            assert((seq![sv.subrange(a as int, b as int)] + rest)[0] == sv.subrange(
                a as int,
                b as int,
            ));
            assert((seq![sv.subrange(a as int, b as int)] + rest).drop_first() =~= rest);
            assert(pre + quoted_words(words_from(sv, cur as int), was_first) =~= out@
                + quoted_words(rest, false));
        }
        cur = b;
        first = false;
    }
    proof {
        assert(words_from(sv, cur as int) =~= Seq::<Seq<char>>::empty());
        assert(out@ + quoted_words(Seq::<Seq<char>>::empty(), first) =~= out@);
    }
    out.append("]");
    proof {
        assert(out@ =~= "["@ + quoted_words(words_from(sv, 0), true) + "]"@);
    }
    out
}

} // verus!
