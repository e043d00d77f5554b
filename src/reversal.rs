use vstd::prelude::*;

verus! {

/// The scalar values of `s` in reverse order.
///
/// This reverses Unicode scalar values, not grapheme clusters: a cluster
/// made of a base character and a combining mark comes out with its two
/// scalar values swapped.
pub open spec fn reversed(s: Seq<char>) -> Seq<char> {
    Seq::new(s.len(), |i: int| s[s.len() - 1 - i])
}

/// Relies on `String::push`: appends one character at the end.
#[verifier::external_body]
fn push_char(s: &mut String, c: char)
    ensures
        final(s)@ == old(s)@.push(c),
{
    s.push(c)
}

/// Reverses the order of the scalar values of `s`.
pub fn reverse(s: &str) -> (r: String)
    ensures
        r@ == reversed(s@),
{
    let mut scalars: Vec<char> = Vec::new();
    for c in it: s.chars()
        invariant
            it.seq() == s@,
            scalars@ == it.seq().take(it.index() as int),
    {
        scalars.push(c);
    }
    assert(scalars@ =~= s@);
    let mut r = String::new();
    let mut i: usize = scalars.len();
    while i > 0
        invariant
            i <= scalars@.len(),
            scalars@ == s@,
            r@ =~= reversed(s@).take(s@.len() - i),
        decreases i,
    {
        i = i - 1;
        push_char(&mut r, scalars[i]);
        assert(r@ =~= reversed(s@).take(s@.len() - i));
    }
    r
}

/// Reversing twice gives back the original text.
pub proof fn lemma_reverse_involution(s: Seq<char>)
    ensures
        reversed(reversed(s)) == s,
{
    assert(reversed(reversed(s)) =~= s);
}

/// Reversal keeps the number of scalar values, and each scalar value
/// stands at the mirrored position.
pub proof fn lemma_reverse_preserves_length(s: Seq<char>)
    ensures
        reversed(s).len() == s.len(),
        forall|i: int| 0 <= i < s.len() ==> #[trigger] reversed(s)[i] == s[s.len() - 1 - i],
{
}

/// The empty text reverses to the empty text.
pub proof fn lemma_reverse_empty()
    ensures
        reversed(Seq::<char>::empty()) == Seq::<char>::empty(),
{
    assert(reversed(Seq::<char>::empty()) =~= Seq::<char>::empty());
}

} // verus!
