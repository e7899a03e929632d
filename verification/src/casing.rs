//! The field name that comes of a type's name.

use vstd::prelude::*;

verus! {

/// Whether `c` is an upper-case letter of ASCII.
pub open spec fn is_upper(c: char) -> bool {
    'A' as u32 <= c as u32 <= 'Z' as u32
}

/// Whether `c` is a lower-case letter or a digit of ASCII.
pub open spec fn is_lower_or_digit(c: char) -> bool {
    'a' as u32 <= c as u32 <= 'z' as u32 || '0' as u32 <= c as u32 <= '9' as u32
}

/// An upper-case letter of ASCII as its lower-case letter; any other character as it is.
pub open spec fn lowered(c: char) -> char {
    if is_upper(c) {
        ((c as u32 + 32) as u8) as char
    } else {
        c
    }
}

/// A name in snake case: every upper-case letter of ASCII becomes its
/// lower-case letter, after an underscore where it follows a lower-case
/// letter or a digit. `UserID` becomes `user_id`.
pub open spec fn snake_case_of(name: Seq<char>) -> Seq<char>
    decreases name.len(),
{
    if name.len() == 0 {
        name
    } else {
        let front = name.drop_last();
        let head = snake_case_of(front);
        if is_upper(name.last()) && front.len() > 0 && is_lower_or_digit(front.last()) {
            head.push('_').push(lowered(name.last()))
        } else {
            head.push(lowered(name.last()))
        }
    }
}

/// Calls `String::push` of std, which appends one character.
#[verifier::external_body]
fn push_char(text: &mut String, c: char)
    ensures
        final(text)@ == old(text)@.push(c),
{
    text.push(c);
}

fn lower(c: char) -> (r: char)
    ensures
        r == lowered(c),
{
    let code = c as u32;
    if 65 <= code && code <= 90 {
        ((code + 32) as u8) as char
    } else {
        c
    }
}

/// Puts a name in snake case.
pub fn snake_case(name: &str) -> (r: String)
    ensures
        r@ == snake_case_of(name@),
{
    let n = name.unicode_len();
    let mut out = String::new();
    let mut previous: char = '_';
    let mut i: usize = 0;
    assert(name@.take(0) =~= Seq::<char>::empty());
    while i < n
        invariant
            i <= n,
            n == name@.len(),
            out@ == snake_case_of(name@.take(i as int)),
            i > 0 ==> previous == name@[i - 1],
        decreases n - i,
    {
        let c = name.get_char(i);
        let code = c as u32;
        let before = previous as u32;
        proof {
            assert(name@.take(i + 1).drop_last() =~= name@.take(i as int));
            assert(name@.take(i + 1).last() == c);
        }
        if 65 <= code && code <= 90 && i > 0 && ((97 <= before && before <= 122) || (48 <= before
            && before <= 57)) {
            push_char(&mut out, '_');
        }
        push_char(&mut out, lower(c));
        previous = c;
        i += 1;
    }
    assert(name@.take(i as int) =~= name@);
    out
}

} // verus!
