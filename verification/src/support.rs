use vstd::prelude::*;

verus! {

/// `String::push`: appends one character.
#[verifier::external_body]
pub(crate) fn push_char(s: &mut String, c: char)
    ensures
        final(s)@ == old(s)@.push(c),
{
    s.push(c);
}

/// `Arc::clone`: another pointer to the same value.
#[verifier::external_body]
pub(crate) fn arc_clone<T>(a: &std::sync::Arc<T>) -> (res: std::sync::Arc<T>)
    ensures
        res == *a,
{
    std::sync::Arc::clone(a)
}

/// Compares two string slices by their characters.
pub fn str_eq(a: &str, b: &str) -> (res: bool)
    ensures
        res <==> a@ == b@,
{
    let n = a.unicode_len();
    if n != b.unicode_len() {
        return false;
    }
    let mut i: usize = 0;
    while i < n
        invariant
            n == a@.len(),
            n == b@.len(),
            i <= n,
            forall|j: int| 0 <= j < i ==> a@[j] == b@[j],
        decreases n - i,
    {
        if a.get_char(i) != b.get_char(i) {
            return false;
        }
        i = i + 1;
    }
    assert(a@ =~= b@);
    true
}

} // verus!
