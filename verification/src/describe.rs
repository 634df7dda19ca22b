//! The reflection helper: from a type's name, generate an
//! implementation of a single-method trait returning that name as a
//! string constant. One hard-coded name is rejected outright.

use vstd::prelude::*;

verus! {

/// A compile-time-only rejection by one of the helper generators.
#[derive(Debug, PartialEq, Eq, Structural, Clone, Copy)]
pub enum BuildRejection {
    ReservedName,
}

/// The one type name the reflection helper refuses.
pub open spec fn reserved_name() -> Seq<char> {
    "OhNo"@
}

/// The implementation text the reflection helper emits for `name`: the
/// generated method returns exactly `name` as a string constant.
pub open spec fn describe_impl_text(name: Seq<char>) -> Seq<char> {
    "impl DescribeStruct for "@ + name
        + " {\n    fn struct_name(&self) -> &'static str {\n        \""@ + name
        + "\"\n    }\n}\n"@
}

/// Whether `s` is the reserved name.
fn is_reserved(s: &str) -> (r: bool)
    ensures
        r == (s@ == reserved_name()),
{
    proof {
        reveal_strlit("OhNo");
    }
    let n = s.unicode_len();
    if n != 4 {
        return false;
    }
    let r = s.get_char(0) == 'O' && s.get_char(1) == 'h' && s.get_char(2) == 'N' && s.get_char(3)
        == 'o';
    proof {
        if r {
            assert(s@ =~= "OhNo"@);
        }
    }
    r
}

/// Generate the reflection implementation for the type named `name`, or
/// reject the reserved name.
pub fn derive_describe_struct(name: &str) -> (r: Result<String, BuildRejection>)
    ensures
        r is Err <==> name@ == reserved_name(),
        r is Err ==> r->Err_0 == BuildRejection::ReservedName,
        r is Ok ==> r->Ok_0@ == describe_impl_text(name@),
{
    if is_reserved(name) {
        return Err(BuildRejection::ReservedName);
    }
    let mut out = String::new();
    out.append("impl DescribeStruct for ");
    out.append(name);
    out.append(" {\n    fn struct_name(&self) -> &'static str {\n        \"");
    out.append(name);
    out.append("\"\n    }\n}\n");
    proof {
        assert(out@ =~= describe_impl_text(name@));
    }
    Ok(out)
}

/// The string constant returned by the method that
/// [`derive_describe_struct`] emits: exactly the given name; the
/// reserved name is rejected instead.
pub fn struct_name_of(name: &str) -> (r: Result<String, BuildRejection>)
    ensures
        r is Err <==> name@ == reserved_name(),
        r is Err ==> r->Err_0 == BuildRejection::ReservedName,
        r is Ok ==> r->Ok_0@ == name@,
{
    if is_reserved(name) {
        Err(BuildRejection::ReservedName)
    } else {
        Ok(name.to_owned())
    }
}

} // verus!
