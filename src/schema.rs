//! Decisions of the schema upgrade: whether a table already has a column.
use vstd::prelude::*;

verus! {

/// Two characters are equal up to ASCII case.
pub open spec fn same_ignoring_ascii_case(a: char, b: char) -> bool {
    a == b || ('A' <= a <= 'Z' && b as u32 == a as u32 + 32) || ('A' <= b <= 'Z' && a as u32
        == b as u32 + 32)
}

/// Two texts are equal up to ASCII case.
pub open spec fn text_eq_ignoring_ascii_case(a: Seq<char>, b: Seq<char>) -> bool {
    a.len() == b.len() && forall|i: int|
        0 <= i < a.len() ==> same_ignoring_ascii_case(#[trigger] a[i], b[i])
}

/// Whether two texts are equal up to ASCII case.
fn eq_ignoring_ascii_case(a: &str, b: &str) -> (r: bool)
    ensures
        r == text_eq_ignoring_ascii_case(a@, b@),
{
    let n = a.unicode_len();
    if n != b.unicode_len() {
        return false;
    }
    let mut i: usize = 0;
    while i < n
        invariant
            n == a@.len(),
            n == b@.len(),
            i <= n,
            forall|j: int| 0 <= j < i ==> same_ignoring_ascii_case(#[trigger] a@[j], b@[j]),
        decreases n - i,
    {
        let x = a.get_char(i);
        let y = b.get_char(i);
        let same = x == y || ('A' <= x && x <= 'Z' && y as u32 == x as u32 + 32) || ('A' <= y && y
            <= 'Z' && x as u32 == y as u32 + 32);
        if !same {
            return false;
        }
        i = i + 1;
    }
    true
}

/// Whether one of the listed column names is `column`, up to ASCII case.
pub fn column_listed(names: &Vec<String>, column: &str) -> (r: bool)
    ensures
        r == exists|i: int|
            0 <= i < names@.len() && text_eq_ignoring_ascii_case(#[trigger] names@[i]@, column@),
{
    let mut i: usize = 0;
    while i < names.len()
        invariant
            i <= names@.len(),
            forall|j: int|
                0 <= j < i ==> !text_eq_ignoring_ascii_case(#[trigger] names@[j]@, column@),
        decreases names@.len() - i,
    {
        if eq_ignoring_ascii_case(names[i].as_str(), column) {
            return true;
        }
        i = i + 1;
    }
    false
}

} // verus!
