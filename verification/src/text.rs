//! String operations of the standard library that the domain logic uses,
//! each with the behaviour its documentation gives.

use vstd::prelude::*;

verus! {

/// `char::is_whitespace`: the Unicode `White_Space` property.
pub open spec fn is_unicode_whitespace(c: char) -> bool {
    let u = c as u32;
    ||| 0x9 <= u <= 0xD
    ||| u == 0x20
    ||| u == 0x85
    ||| u == 0xA0
    ||| u == 0x1680
    ||| 0x2000 <= u <= 0x200A
    ||| u == 0x2028
    ||| u == 0x2029
    ||| u == 0x202F
    ||| u == 0x205F
    ||| u == 0x3000
}

/// `s` without its leading whitespace.
pub open spec fn trim_start_spec(s: Seq<char>) -> Seq<char>
    decreases s.len(),
{
    if s.len() > 0 && is_unicode_whitespace(s[0]) {
        trim_start_spec(s.drop_first())
    } else {
        s
    }
}

/// `s` without its trailing whitespace.
pub open spec fn trim_end_spec(s: Seq<char>) -> Seq<char>
    decreases s.len(),
{
    if s.len() > 0 && is_unicode_whitespace(s.last()) {
        trim_end_spec(s.drop_last())
    } else {
        s
    }
}

/// `s` without its leading and trailing whitespace.
pub open spec fn trim_spec(s: Seq<char>) -> Seq<char> {
    trim_end_spec(trim_start_spec(s))
}

/// Calls `str::trim`, which returns the string slice with leading and
/// trailing whitespace (the Unicode `White_Space` property) removed.
#[verifier::external_body]
pub(crate) fn trim<'a>(s: &'a str) -> (r: &'a str)
    ensures
        r@ == trim_spec(s@),
{
    s.trim()
}

/// Calls `str::strip_prefix` with a string pattern: the rest of `s` after
/// `prefix` when `s` starts with it, else `None`.
#[verifier::external_body]
pub(crate) fn strip_prefix<'a>(s: &'a str, prefix: &str) -> (r: Option<&'a str>)
    ensures
        match r {
            Some(rest) => s@ == prefix@ + rest@,
            None => !prefix@.is_prefix_of(s@),
        },
{
    s.strip_prefix(prefix)
}

/// Calls `String::push`, which appends one character.
#[verifier::external_body]
pub(crate) fn push_char(s: &mut String, c: char)
    ensures
        final(s)@ == old(s)@.push(c),
{
    s.push(c)
}

/// A trimmed string is empty exactly when every character is whitespace.
pub proof fn lemma_trim_empty_iff_all_whitespace(s: Seq<char>)
    ensures
        trim_spec(s).len() == 0 <==> forall|i: int| 0 <= i < s.len() ==> is_unicode_whitespace(
            #[trigger] s[i],
        ),
    decreases s.len(),
{
    if s.len() > 0 {
        lemma_trim_empty_iff_all_whitespace(s.drop_first());
        if is_unicode_whitespace(s[0]) {
            assert forall|i: int| 0 <= i < s.len() && (forall|j: int| 0 <= j < s.drop_first().len() ==> is_unicode_whitespace(#[trigger] s.drop_first()[j])) implies is_unicode_whitespace(s[i]) by {
                if i > 0 {
                    assert(s[i] == s.drop_first()[i - 1]);
                }
            }
            assert((forall|i: int| 0 <= i < s.len() ==> is_unicode_whitespace(#[trigger] s[i])) ==> (forall|j: int| 0 <= j < s.drop_first().len() ==> is_unicode_whitespace(#[trigger] s.drop_first()[j]))) by {
                if forall|i: int| 0 <= i < s.len() ==> is_unicode_whitespace(#[trigger] s[i]) {
                    assert forall|j: int| 0 <= j < s.drop_first().len() implies is_unicode_whitespace(#[trigger] s.drop_first()[j]) by {
                        assert(s.drop_first()[j] == s[j + 1]);
                    }
                }
            }
        } else {
            lemma_trim_end_keeps_non_whitespace_head(s);
        }
    }
}

/// Trimming the end of a string whose first character is not whitespace
/// keeps that character.
proof fn lemma_trim_end_keeps_non_whitespace_head(s: Seq<char>)
    requires
        s.len() > 0,
        !is_unicode_whitespace(s[0]),
    ensures
        trim_end_spec(s).len() > 0,
    decreases s.len(),
{
    if is_unicode_whitespace(s.last()) {
        assert(s.len() > 1);
        assert(s.drop_last()[0] == s[0]);
        lemma_trim_end_keeps_non_whitespace_head(s.drop_last());
    }
}

} // verus!
