//! Canonical-name transformation.
//!
//! `transform_name` turns a compound-word identifier such as `SomeEvent` into
//! its canonical lowercase underscore-separated form `some_event`: the first
//! character is lowercased unconditionally, every later uppercase character is
//! replaced by an underscore followed by its lowercase form, and every other
//! character passes through unchanged.  Each uppercase character triggers its
//! own underscore, so a run such as `ABC` becomes `a_b_c`; this per-character
//! policy is deliberate and must stay stable, because the produced names are
//! used as wire-level identifiers by external consumers.

use vstd::prelude::*;
use vstd::string::StrSliceExecFns;
use vstd::string::StringExecFns;

verus! {

/// The sequence of characters that the Unicode lowercase mapping yields for
/// one character.  The mapping is defined by `char::to_lowercase`, which
/// depends on the character alone; it is left uninterpreted here.
pub uninterp spec fn lowercase_of(c: char) -> Seq<char>;

/// Whether a character has the Unicode `Uppercase` property, as decided by
/// `char::is_uppercase`; left uninterpreted here.
pub uninterp spec fn uppercase(c: char) -> bool;

/// Relies on `char::to_lowercase`: the lowercase mapping of a character is a
/// function of that character alone, and yields one or more characters (the
/// character itself when it has no lowercase mapping).
#[verifier::external_body]
fn char_lowercase(c: char) -> (r: String)
    ensures
        r@ == lowercase_of(c),
        r@.len() >= 1,
{
    c.to_lowercase().collect()
}

/// Relies on `char::is_uppercase`: whether a character has the `Uppercase`
/// property is a function of that character alone.
#[verifier::external_body]
fn char_is_uppercase(c: char) -> (r: bool)
    ensures
        r == uppercase(c),
{
    c.is_uppercase()
}

/// Relies on `String::push`: appends exactly the given character.
#[verifier::external_body]
pub(crate) fn push_char(s: &mut String, c: char)
    ensures
        final(s)@ == old(s)@.push(c),
{
    s.push(c)
}

/// What one character beyond the first contributes to the canonical name: an
/// uppercase character becomes an underscore followed by its lowercase form,
/// any other character passes through unchanged.
pub open spec fn transform_char(c: char) -> Seq<char> {
    if uppercase(c) {
        seq!['_'] + lowercase_of(c)
    } else {
        seq![c]
    }
}

/// The canonical form of every character after the first, concatenated.
pub open spec fn transform_tail(s: Seq<char>) -> Seq<char>
    decreases s.len(),
{
    if s.len() == 0 {
        Seq::empty()
    } else {
        transform_char(s[0]) + transform_tail(s.drop_first())
    }
}

/// The canonical name of an identifier: the lowercase form of its first
/// character, then the contribution of every later character in order.  Total
/// over all character sequences; the empty sequence maps to itself.
pub open spec fn transform_spec(s: Seq<char>) -> Seq<char> {
    if s.len() == 0 {
        Seq::empty()
    } else {
        lowercase_of(s[0]) + transform_tail(s.drop_first())
    }
}

/// Appending one character to the tail extends its canonical form by exactly
/// that character's contribution.
proof fn lemma_transform_tail_push(s: Seq<char>, c: char)
    ensures
        transform_tail(s.push(c)) == transform_tail(s) + transform_char(c),
    decreases s.len(),
{
    if s.len() == 0 {
        assert(s.push(c)[0] == c);
        assert(s.push(c).drop_first() =~= Seq::<char>::empty());
        assert(transform_tail(Seq::<char>::empty()) =~= Seq::<char>::empty());
        assert(transform_tail(s.push(c)) =~= transform_char(c) + Seq::<char>::empty());
        assert(transform_char(c) + Seq::<char>::empty() =~= transform_char(c));
        assert(transform_tail(s) + transform_char(c) =~= transform_char(c));
    } else {
        assert(s.push(c).drop_first() =~= s.drop_first().push(c));
        lemma_transform_tail_push(s.drop_first(), c);
        assert(transform_char(s[0]) + (transform_tail(s.drop_first()) + transform_char(c)) =~= (
        transform_char(s[0]) + transform_tail(s.drop_first())) + transform_char(c));
    }
}

/// The canonical name depends on the identifier's characters alone: equal
/// identifiers always transform to equal canonical names.  Together with the
/// postcondition of `transform_name`, which pins the returned string to
/// `transform_spec` of the input, this makes the transformation total and
/// deterministic: repeated calls on one identifier yield identical output.
pub proof fn lemma_transform_deterministic(a: Seq<char>, b: Seq<char>)
    requires
        a == b,
    ensures
        transform_spec(a) == transform_spec(b),
{
}

/// Turn a compound-word identifier into its canonical lowercase
/// underscore-separated name: `One` to `one`, `SomeEvent` to `some_event`,
/// `UnassignedMsgType` to `unassigned_msg_type`, `ABCFoo` to `a_b_c_foo`.
/// A non-empty identifier yields a non-empty name.
pub fn transform_name(in_name: &str) -> (out: String)
    ensures
        out@ == transform_spec(in_name@),
        in_name@.len() >= 1 ==> out@.len() >= 1,
{
    let ghost s = in_name@;
    let n = in_name.unicode_len();
    let mut out = String::new();
    let mut i: usize = 0;
    while i < n
        invariant
            n == s.len(),
            i <= n,
            s == in_name@,
            i == 0 ==> out@ == Seq::<char>::empty(),
            i >= 1 ==> out@ == lowercase_of(s[0]) + transform_tail(s.subrange(1, i as int)),
            i >= 1 ==> out@.len() >= 1,
        decreases n - i,
    {
        let c = in_name.get_char(i);
        if i == 0 {
            let low = char_lowercase(c);
            out.append(low.as_str());
            proof {
                assert(s.subrange(1, 1) =~= Seq::<char>::empty());
                assert(out@ =~= lowercase_of(s[0]) + transform_tail(s.subrange(1, 1)));
            }
        } else {
            let ghost pre = s.subrange(1, i as int);
            if char_is_uppercase(c) {
                push_char(&mut out, '_');
                let low = char_lowercase(c);
                out.append(low.as_str());
            } else {
                push_char(&mut out, c);
            }
            proof {
                assert(s.subrange(1, i + 1) =~= pre.push(s[i as int]));
                lemma_transform_tail_push(pre, s[i as int]);
                assert(out@ =~= lowercase_of(s[0]) + transform_tail(s.subrange(1, i + 1)));
            }
        }
        i += 1;
    }
    proof {
        if s.len() >= 1 {
            assert(s.subrange(1, s.len() as int) =~= s.drop_first());
        }
    }
    out
}

} // verus!
