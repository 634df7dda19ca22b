//! Code generation: a parsed declaration is first turned into a small
//! internal form (one test clause per named range), which is then both
//! rendered to source text and given a direct evaluator. The evaluator
//! is proved to implement the declaration's first-match-wins semantics,
//! so the rendered conditional chain and the declared ranges agree.

use vstd::prelude::*;

use crate::parse::NamedRangeList;
use crate::parse::NamedRangeV;
use crate::parse::RangedEnum;
use crate::parse::RangedEnumV;
use crate::parse::SyntaxError;
use crate::parse::spec_decl_str;

verus! {

/// The test of one generated branch: an equality test for a single-value
/// range, a half-open interval test otherwise.
#[derive(Debug, PartialEq, Eq, Structural, Clone, Copy)]
pub enum Cond {
    Eq(u64),
    Between(u64, u64),
}

/// One branch of the generated conversion function: a test and the
/// variant produced when it succeeds.
#[derive(Debug, PartialEq, Eq, Clone)]
pub struct Clause {
    pub variant: String,
    pub cond: Cond,
}

/// Mathematical model of a [`Clause`].
pub ghost struct ClauseV {
    pub variant: Seq<char>,
    pub cond: Cond,
}

impl View for Clause {
    type V = ClauseV;

    open spec fn view(&self) -> ClauseV {
        ClauseV { variant: self.variant@, cond: self.cond }
    }
}

/// Whether `x` lies in a named range: equal to `start` when `end` is
/// absent, in the half-open interval `[start, end)` otherwise.
pub open spec fn range_matches(r: NamedRangeV, x: u64) -> bool {
    match r.end {
        None => x == r.start,
        Some(e) => r.start <= x < e,
    }
}

/// Whether a generated test succeeds on `x`.
pub open spec fn cond_holds(c: Cond, x: u64) -> bool {
    match c {
        Cond::Eq(v) => x == v,
        Cond::Between(a, b) => a <= x < b,
    }
}

/// The test generated for one named range.
pub open spec fn cond_of(r: NamedRangeV) -> Cond {
    match r.end {
        None => Cond::Eq(r.start),
        Some(e) => Cond::Between(r.start, e),
    }
}

/// The clause chain generated for a range list, in declaration order.
pub open spec fn chain_of(ranges: Seq<NamedRangeV>) -> Seq<ClauseV> {
    ranges.map_values(|r: NamedRangeV| ClauseV { variant: r.name, cond: cond_of(r) })
}

/// The intended meaning of a declaration: the name of the first range
/// (in declared order) containing `x`, or `x` itself when none does.
pub open spec fn spec_convert(ranges: Seq<NamedRangeV>, x: u64) -> Result<Seq<char>, u64>
    decreases ranges.len(),
{
    if ranges.len() == 0 {
        Err(x)
    } else if range_matches(ranges[0], x) {
        Ok(ranges[0].name)
    } else {
        spec_convert(ranges.drop_first(), x)
    }
}

/// What the generated conditional chain computes: the variant of the
/// first clause whose test succeeds, or `x` when none does.
pub open spec fn spec_eval_chain(chain: Seq<ClauseV>, x: u64) -> Result<Seq<char>, u64>
    decreases chain.len(),
{
    if chain.len() == 0 {
        Err(x)
    } else if cond_holds(chain[0].cond, x) {
        Ok(chain[0].variant)
    } else {
        spec_eval_chain(chain.drop_first(), x)
    }
}

/// Round trip: evaluating the chain generated from a range list
/// reproduces the declaration's intended first-match-wins mapping, for
/// every input.
pub proof fn lemma_chain_faithful(ranges: Seq<NamedRangeV>, x: u64)
    ensures
        spec_eval_chain(chain_of(ranges), x) == spec_convert(ranges, x),
    decreases ranges.len(),
{
    if ranges.len() > 0 {
        assert(cond_holds(cond_of(ranges[0]), x) == range_matches(ranges[0], x));
        lemma_chain_faithful(ranges.drop_first(), x);
        assert(chain_of(ranges).drop_first() =~= chain_of(ranges.drop_first()));
    }
}

/// A declaration of no ranges generates a conversion that fails on every
/// input, returning the input itself.
pub proof fn lemma_empty_chain_always_fails(ranges: Seq<NamedRangeV>, x: u64)
    requires
        ranges.len() == 0,
    ensures
        spec_eval_chain(chain_of(ranges), x) == Err::<Seq<char>, u64>(x),
{
}

/// Ranges that do not contain `x` never decide the conversion of `x`:
/// any such prefix can be dropped.
pub proof fn lemma_convert_skip_prefix(
    prefix: Seq<NamedRangeV>,
    tail: Seq<NamedRangeV>,
    x: u64,
)
    requires
        forall|k: int| 0 <= k < prefix.len() ==> !range_matches(#[trigger] prefix[k], x),
    ensures
        spec_convert(prefix + tail, x) == spec_convert(tail, x),
    decreases prefix.len(),
{
    if prefix.len() == 0 {
        assert(prefix + tail =~= tail);
    } else {
        assert((prefix + tail)[0] == prefix[0]);
        assert((prefix + tail).drop_first() =~= prefix.drop_first() + tail);
        lemma_convert_skip_prefix(prefix.drop_first(), tail, x);
    }
}

/// Order sensitivity: when two differently named ranges both contain `x`
/// and no range declared before them does, swapping their declared order
/// changes which variant wins for `x` — first match wins. (The names
/// must differ: duplicate names are permitted, and swapping two ranges
/// of one name changes nothing observable.)
pub proof fn lemma_order_sensitivity(
    prefix: Seq<NamedRangeV>,
    r1: NamedRangeV,
    r2: NamedRangeV,
    rest: Seq<NamedRangeV>,
    x: u64,
)
    requires
        forall|k: int| 0 <= k < prefix.len() ==> !range_matches(#[trigger] prefix[k], x),
        range_matches(r1, x),
        range_matches(r2, x),
        r1.name != r2.name,
    ensures
        spec_convert(prefix + (seq![r1, r2] + rest), x) == Ok::<Seq<char>, u64>(r1.name),
        spec_convert(prefix + (seq![r2, r1] + rest), x) == Ok::<Seq<char>, u64>(r2.name),
        spec_convert(prefix + (seq![r1, r2] + rest), x) != spec_convert(
            prefix + (seq![r2, r1] + rest),
            x,
        ),
{
    lemma_convert_skip_prefix(prefix, seq![r1, r2] + rest, x);
    lemma_convert_skip_prefix(prefix, seq![r2, r1] + rest, x);
    assert((seq![r1, r2] + rest)[0] == r1);
    assert((seq![r2, r1] + rest)[0] == r2);
}

impl RangedEnum {
    /// The clause chain of this declaration's conversion function, one
    /// clause per named range, in declaration order.
    pub fn conversion_chain(&self) -> (r: Vec<Clause>)
        ensures
            r@.map_values(|c: Clause| c@) == chain_of(self@.variants),
    {
        let list = &self.variants.list;
        let mut chain: Vec<Clause> = Vec::new();
        let mut i: usize = 0;
        while i < list.len()
            invariant
                i <= list.len(),
                list == &self.variants.list,
                chain@.len() == i,
                forall|k: int|
                    0 <= k < i ==> #[trigger] chain@[k]@ == (ClauseV {
                        variant: self@.variants[k].name,
                        cond: cond_of(self@.variants[k]),
                    }),
            decreases list.len() - i,
        {
            let r = &list[i];
            let cond = match r.end {
                None => Cond::Eq(r.start),
                Some(e) => Cond::Between(r.start, e),
            };
            proof {
                assert(self@.variants[i as int] == list@[i as int]@);
            }
            chain.push(Clause { variant: r.name.clone(), cond });
            i = i + 1;
        }
        proof {
            assert(chain@.map_values(|c: Clause| c@) =~= chain_of(self@.variants));
        }
        chain
    }

    /// Evaluate this declaration's conversion function directly: the
    /// variant name of the first declared range containing `x`, or `x`
    /// itself when no range does.
    pub fn convert(&self, x: u64) -> (r: Result<String, u64>)
        ensures
            match r {
                Ok(nm) => spec_convert(self@.variants, x) == Ok::<Seq<char>, u64>(nm@),
                Err(v) => spec_convert(self@.variants, x) == Err::<Seq<char>, u64>(v),
            },
    {
        let chain = self.conversion_chain();
        proof {
            lemma_chain_faithful(self@.variants, x);
        }
        eval_chain(&chain, x)
    }
}

/// Evaluate a clause chain on `x`, exactly as the generated conversion
/// function would: first matching clause wins; no match returns `x` as
/// the error value.
pub fn eval_chain(chain: &Vec<Clause>, x: u64) -> (r: Result<String, u64>)
    ensures
        match r {
            Ok(nm) => spec_eval_chain(chain@.map_values(|c: Clause| c@), x) == Ok::<
                Seq<char>,
                u64,
            >(nm@),
            Err(v) => spec_eval_chain(chain@.map_values(|c: Clause| c@), x) == Err::<
                Seq<char>,
                u64,
            >(v),
        },
{
    let ghost full = chain@.map_values(|c: Clause| c@);
    let mut i: usize = 0;
    proof {
        assert(full.skip(0) =~= full);
    }
    while i < chain.len()
        invariant
            i <= chain.len(),
            full == chain@.map_values(|c: Clause| c@),
            spec_eval_chain(full, x) == spec_eval_chain(full.skip(i as int), x),
        decreases chain.len() - i,
    {
        let c = &chain[i];
        let hit = match c.cond {
            Cond::Eq(v) => x == v,
            Cond::Between(a, b) => a <= x && x < b,
        };
        proof {
            assert(full.skip(i as int)[0] == full[i as int]);
        }
        if hit {
            return Ok(c.variant.clone());
        }
        proof {
            assert(full.skip(i as int).drop_first() =~= full.skip(i as int + 1));
        }
        i = i + 1;
    }
    proof {
        assert(full.skip(chain@.len() as int) =~= Seq::<ClauseV>::empty());
    }
    Err(x)
}

/// The character of one decimal digit.
pub open spec fn digit_char_of(d: int) -> char {
    if d == 0 {
        '0'
    } else if d == 1 {
        '1'
    } else if d == 2 {
        '2'
    } else if d == 3 {
        '3'
    } else if d == 4 {
        '4'
    } else if d == 5 {
        '5'
    } else if d == 6 {
        '6'
    } else if d == 7 {
        '7'
    } else if d == 8 {
        '8'
    } else {
        '9'
    }
}

/// Decimal rendering of a nonnegative integer, most significant digit
/// first, without leading zeros (`0` itself renders as `"0"`).
pub open spec fn dec_seq(n: int) -> Seq<char>
    recommends
        n >= 0,
    decreases n,
{
    if n < 10 {
        seq![digit_char_of(n)]
    } else {
        dec_seq(n / 10) + seq![digit_char_of(n % 10)]
    }
}

/// The annotations of a declaration, each on its own line, verbatim.
pub open spec fn attrs_text(attrs: Seq<Seq<char>>) -> Seq<char>
    decreases attrs.len(),
{
    if attrs.len() == 0 {
        Seq::empty()
    } else {
        attrs[0] + "\n"@ + attrs_text(attrs.drop_first())
    }
}

/// The variant lines of the generated enum, one per range, in order.
pub open spec fn variants_text(ranges: Seq<NamedRangeV>) -> Seq<char>
    decreases ranges.len(),
{
    if ranges.len() == 0 {
        Seq::empty()
    } else {
        "    "@ + ranges[0].name + ",\n"@ + variants_text(ranges.drop_first())
    }
}

/// The generated enum declaration, preceded by the annotations.
pub open spec fn enum_text(attrs: Seq<Seq<char>>, name: Seq<char>, ranges: Seq<NamedRangeV>) -> Seq<
    char,
> {
    attrs_text(attrs) + "enum "@ + name + " {\n"@ + variants_text(ranges) + "}\n"@
}

/// The source text of one generated test.
pub open spec fn cond_text(c: Cond) -> Seq<char> {
    match c {
        Cond::Eq(v) => "x == "@ + dec_seq(v as int),
        Cond::Between(a, b) => "("@ + dec_seq(a as int) + ".."@ + dec_seq(b as int)
            + ").contains(&x)"@,
    }
}

/// One branch of the generated conversion function; every branch but the
/// first carries a leading `else`.
pub open spec fn branch_text(name: Seq<char>, cl: ClauseV, first: bool) -> Seq<char> {
    (if first {
        "        if "@
    } else {
        "        else if "@
    }) + cond_text(cl.cond) + " { Ok("@ + name + "::"@ + cl.variant + ") }\n"@
}

/// All branches of the generated conversion function, in clause order.
pub open spec fn branches_text(name: Seq<char>, chain: Seq<ClauseV>, first: bool) -> Seq<char>
    decreases chain.len(),
{
    if chain.len() == 0 {
        Seq::empty()
    } else {
        branch_text(name, chain[0], first) + branches_text(name, chain.drop_first(), false)
    }
}

/// The final line producing the error value: a bare expression when
/// there are no branches (so the function is well-formed and always
/// fails), an `else` arm otherwise.
pub open spec fn fallback_text(no_branches: bool) -> Seq<char> {
    if no_branches {
        "        Err(x)\n"@
    } else {
        "        else { Err(x) }\n"@
    }
}

/// The generated conversion-function implementation.
pub open spec fn impl_text(name: Seq<char>, chain: Seq<ClauseV>) -> Seq<char> {
    "impl ::core::convert::TryFrom<u64> for "@ + name
        + " {\n    type Error = u64;\n\n    fn try_from(x: u64) -> Result<Self, u64> {\n"@
        + branches_text(name, chain, true) + fallback_text(chain.len() == 0) + "    }\n}\n"@
}

/// The whole generated output of one declaration: the annotated enum,
/// a blank line, and the conversion-function implementation.
pub open spec fn gen_text(d: RangedEnumV) -> Seq<char> {
    enum_text(d.attributes, d.name, d.variants) + "\n"@ + impl_text(d.name, chain_of(d.variants))
}

fn append_digit(out: &mut String, d: u64)
    requires
        d < 10,
    ensures
        final(out)@ == old(out)@ + seq![digit_char_of(d as int)],
{
    if d == 0 {
        proof {
            reveal_strlit("0");
            assert("0"@ =~= seq![digit_char_of(0)]);
        }
        out.append("0");
    } else if d == 1 {
        proof {
            reveal_strlit("1");
            assert("1"@ =~= seq![digit_char_of(1)]);
        }
        out.append("1");
    } else if d == 2 {
        proof {
            reveal_strlit("2");
            assert("2"@ =~= seq![digit_char_of(2)]);
        }
        out.append("2");
    } else if d == 3 {
        proof {
            reveal_strlit("3");
            assert("3"@ =~= seq![digit_char_of(3)]);
        }
        out.append("3");
    } else if d == 4 {
        proof {
            reveal_strlit("4");
            assert("4"@ =~= seq![digit_char_of(4)]);
        }
        out.append("4");
    } else if d == 5 {
        proof {
            reveal_strlit("5");
            assert("5"@ =~= seq![digit_char_of(5)]);
        }
        out.append("5");
    } else if d == 6 {
        proof {
            reveal_strlit("6");
            assert("6"@ =~= seq![digit_char_of(6)]);
        }
        out.append("6");
    } else if d == 7 {
        proof {
            reveal_strlit("7");
            assert("7"@ =~= seq![digit_char_of(7)]);
        }
        out.append("7");
    } else if d == 8 {
        proof {
            reveal_strlit("8");
            assert("8"@ =~= seq![digit_char_of(8)]);
        }
        out.append("8");
    } else {
        proof {
            reveal_strlit("9");
            assert("9"@ =~= seq![digit_char_of(9)]);
        }
        out.append("9");
    }
}

/// Append the decimal rendering of `v`.
fn append_dec(out: &mut String, v: u64)
    ensures
        final(out)@ == old(out)@ + dec_seq(v as int),
    decreases v,
{
    if v >= 10 {
        append_dec(out, v / 10);
        let ghost mid = out@;
        append_digit(out, v % 10);
        proof {
            assert(v as int / 10 == (v / 10) as int);
            assert(v as int % 10 == (v % 10) as int);
            assert(old(out)@ + (dec_seq(v as int / 10) + seq![digit_char_of(v as int % 10)]) =~= (
            old(out)@ + dec_seq(v as int / 10)) + seq![digit_char_of(v as int % 10)]);
        }
    } else {
        append_digit(out, v);
    }
}

/// Append each annotation verbatim, one per line.
fn append_attrs(out: &mut String, attrs: &Vec<String>)
    ensures
        final(out)@ == old(out)@ + attrs_text(attrs@.map_values(|a: String| a@)),
{
    let ghost full = attrs@.map_values(|a: String| a@);
    let mut i: usize = 0;
    proof {
        assert(full.skip(0) =~= full);
    }
    while i < attrs.len()
        invariant
            i <= attrs.len(),
            full == attrs@.map_values(|a: String| a@),
            out@ + attrs_text(full.skip(i as int)) == old(out)@ + attrs_text(full),
        decreases attrs.len() - i,
    {
        let ghost pre = out@;
        out.append(attrs[i].as_str());
        out.append("\n");
        proof {
            assert(full.skip(i as int)[0] == full[i as int]);
            assert(full.skip(i as int).drop_first() =~= full.skip(i as int + 1));
            assert(pre + attrs_text(full.skip(i as int)) =~= out@ + attrs_text(
                full.skip(i as int + 1),
            ));
        }
        i = i + 1;
    }
    proof {
        assert(full.skip(attrs@.len() as int) =~= Seq::<Seq<char>>::empty());
        assert(out@ + attrs_text(Seq::<Seq<char>>::empty()) =~= out@);
    }
}

/// Append the variant lines of the generated enum.
fn append_variants(out: &mut String, list: &NamedRangeList)
    ensures
        final(out)@ == old(out)@ + variants_text(list@),
{
    let ghost full = list@;
    let mut i: usize = 0;
    proof {
        assert(full.skip(0) =~= full);
    }
    while i < list.list.len()
        invariant
            i <= list.list.len(),
            full == list@,
            out@ + variants_text(full.skip(i as int)) == old(out)@ + variants_text(full),
        decreases list.list.len() - i,
    {
        let ghost pre = out@;
        out.append("    ");
        out.append(list.list[i].name.as_str());
        out.append(",\n");
        proof {
            assert(full.skip(i as int)[0] == full[i as int]);
            assert(full[i as int] == list.list@[i as int]@);
            assert(full.skip(i as int).drop_first() =~= full.skip(i as int + 1));
            assert(pre + variants_text(full.skip(i as int)) =~= out@ + variants_text(
                full.skip(i as int + 1),
            ));
        }
        i = i + 1;
    }
    proof {
        assert(full.skip(full.len() as int) =~= Seq::<NamedRangeV>::empty());
        assert(out@ + variants_text(Seq::<NamedRangeV>::empty()) =~= out@);
    }
}

/// Append the source text of one generated test.
fn append_cond(out: &mut String, c: &Cond)
    ensures
        final(out)@ == old(out)@ + cond_text(*c),
{
    match c {
        Cond::Eq(v) => {
            out.append("x == ");
            append_dec(out, *v);
            proof {
                assert(out@ =~= old(out)@ + cond_text(*c));
            }
        },
        Cond::Between(a, b) => {
            out.append("(");
            append_dec(out, *a);
            out.append("..");
            append_dec(out, *b);
            out.append(").contains(&x)");
            proof {
                assert(out@ =~= old(out)@ + cond_text(*c));
            }
        },
    }
}

/// Append one branch of the generated conversion function.
fn append_branch(out: &mut String, name: &String, cl: &Clause, first: bool)
    ensures
        final(out)@ == old(out)@ + branch_text(name@, cl@, first),
{
    if first {
        out.append("        if ");
    } else {
        out.append("        else if ");
    }
    append_cond(out, &cl.cond);
    out.append(" { Ok(");
    out.append(name.as_str());
    out.append("::");
    out.append(cl.variant.as_str());
    out.append(") }\n");
    proof {
        assert(out@ =~= old(out)@ + branch_text(name@, cl@, first));
    }
}

/// Append all branches of the generated conversion function.
fn append_branches(out: &mut String, name: &String, chain: &Vec<Clause>)
    ensures
        final(out)@ == old(out)@ + branches_text(
            name@,
            chain@.map_values(|c: Clause| c@),
            true,
        ),
{
    let ghost full = chain@.map_values(|c: Clause| c@);
    let mut i: usize = 0;
    proof {
        assert(full.skip(0) =~= full);
    }
    while i < chain.len()
        invariant
            i <= chain.len(),
            full == chain@.map_values(|c: Clause| c@),
            out@ + branches_text(name@, full.skip(i as int), i == 0) == old(out)@
                + branches_text(name@, full, true),
        decreases chain.len() - i,
    {
        let ghost pre = out@;
        let ghost was_first = i == 0;
        append_branch(out, name, &chain[i], i == 0);
        proof {
            assert(full.skip(i as int)[0] == full[i as int]);
            assert(full.skip(i as int).drop_first() =~= full.skip(i as int + 1));
            assert(pre + branches_text(name@, full.skip(i as int), was_first) =~= out@
                + branches_text(name@, full.skip(i as int + 1), false));
        }
        i = i + 1;
    }
    proof {
        assert(full.skip(chain@.len() as int) =~= Seq::<ClauseV>::empty());
        assert(out@ + branches_text(name@, Seq::<ClauseV>::empty(), chain@.len() == 0) =~= out@);
    }
}

/// Append the generated conversion-function implementation.
fn append_impl(out: &mut String, name: &String, chain: &Vec<Clause>)
    ensures
        final(out)@ == old(out)@ + impl_text(name@, chain@.map_values(|c: Clause| c@)),
{
    out.append("impl ::core::convert::TryFrom<u64> for ");
    out.append(name.as_str());
    out.append(" {\n    type Error = u64;\n\n    fn try_from(x: u64) -> Result<Self, u64> {\n");
    append_branches(out, name, chain);
    if chain.len() == 0 {
        out.append("        Err(x)\n");
    } else {
        out.append("        else { Err(x) }\n");
    }
    out.append("    }\n}\n");
    proof {
        assert(out@ =~= old(out)@ + impl_text(name@, chain@.map_values(|c: Clause| c@)));
    }
}

impl RangedEnum {
    /// Append this declaration's whole generated output: the annotations,
    /// the enum, a blank line, and the conversion-function implementation.
    pub fn to_tokens(&self, out: &mut String)
        ensures
            final(out)@ == old(out)@ + gen_text(self@),
    {
        append_attrs(out, &self.attributes);
        out.append("enum ");
        out.append(self.name.as_str());
        out.append(" {\n");
        append_variants(out, &self.variants);
        out.append("}\n");
        out.append("\n");
        let chain = self.conversion_chain();
        append_impl(out, &self.name, &chain);
        proof {
            assert(out@ =~= old(out)@ + gen_text(self@));
        }
    }
}

/// The whole pipeline of one invocation: parse a complete declaration
/// and generate its output source text. Fails exactly where the parser
/// does, with the offending position.
pub fn enum_ranges(s: &str) -> (r: Result<String, SyntaxError>)
    ensures
        match r {
            Ok(t) => spec_decl_str(s@) is Ok && t@ == gen_text(spec_decl_str(s@)->Ok_0),
            Err(e) => spec_decl_str(s@) == Err::<RangedEnumV, int>(e.pos as int),
        },
{
    let d = match RangedEnum::parse_str(s) {
        Ok(d) => d,
        Err(e) => {
            return Err(e);
        },
    };
    let mut out = String::new();
    d.to_tokens(&mut out);
    proof {
        assert(Seq::<char>::empty() + gen_text(d@) =~= gen_text(d@));
    }
    Ok(out)
}

} // verus!
