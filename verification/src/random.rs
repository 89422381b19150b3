//! Random identifiers.
use crate::digest::is_hex_digit;
use crate::text::{chars_of, glue3, glue5, text_of};
use vstd::prelude::*;

verus! {

/// The digits of a random identifier: 32 lower-case hexadecimal ones, of which the
/// thirteenth tells that it is random and the seventeenth its layout.
pub open spec fn is_random_id(s: Seq<char>) -> bool {
    &&& s.len() == 32
    &&& forall|i: int| 0 <= i < s.len() ==> is_hex_digit(#[trigger] s[i])
    &&& s[12] == '4'
    &&& s[16] == '8' || s[16] == '9' || s[16] == 'a' || s[16] == 'b'
}

/// `Uuid::new_v4` in its simple form. The result depends on chance: of every outcome
/// it holds that it has the digits of a random identifier.
#[verifier::external_body]
pub(crate) fn random_id() -> (id: String)
    ensures
        is_random_id(id@),
{
    uuid::Uuid::new_v4().simple().to_string()
}

/// An identifier with hyphens after its eighth, twelfth, sixteenth and twentieth
/// digit.
pub open spec fn hyphenated(id: Seq<char>) -> Seq<char> {
    id.subrange(0, 8) + "-"@ + id.subrange(8, 12) + "-"@ + id.subrange(12, 16) + "-"@
        + id.subrange(16, 20) + "-"@ + id.subrange(20, 32)
}

/// An identifier with hyphens after its eighth, twelfth, sixteenth and twentieth
/// digit.
pub fn hyphenate(id: &str) -> (text: String)
    requires
        id@.len() == 32,
    ensures
        text@ == hyphenated(id@),
{
    let chars = chars_of(id);
    let head = glue5(
        &text_of(&chars, 0, 8),
        "-",
        &text_of(&chars, 8, 12),
        "-",
        &text_of(&chars, 12, 16),
    );
    let middle = glue3(&head, "-", &text_of(&chars, 16, 20));
    glue3(&middle, "-", &text_of(&chars, 20, 32))
}

/// A fresh identifier with hyphens.
pub fn fresh_id() -> (text: String)
    ensures
        exists|id: Seq<char>| #[trigger] is_random_id(id) && text@ == hyphenated(id),
{
    let id = random_id();
    hyphenate(&id)
}

/// Hyphens lose nothing: different identifiers stay different.
pub proof fn hyphens_lose_nothing(a: Seq<char>, b: Seq<char>)
    requires
        a.len() == 32,
        b.len() == 32,
        hyphenated(a) == hyphenated(b),
    ensures
        a == b,
{
    reveal_strlit("-");
    let x = hyphenated(a);
    let y = hyphenated(b);
    assert(x.len() == 36 && y.len() == 36);
    assert forall|i: int| 0 <= i < 32 implies a[i] == b[i] by {
        let at = if i < 8 {
            i
        } else if i < 12 {
            i + 1
        } else if i < 16 {
            i + 2
        } else if i < 20 {
            i + 3
        } else {
            i + 4
        };
        assert(x[at] == a[i]);
        assert(y[at] == b[i]);
    }
    assert(a =~= b);
}

/// An identifier keeps its digits in their order: four hyphens stand between them, and
/// nothing else is added.
pub proof fn hyphens_stand_between_the_digits(id: Seq<char>, i: int)
    requires
        id.len() == 32,
        0 <= i < 32,
    ensures
        hyphenated(id).len() == 36,
        hyphenated(id)[8] == '-',
        hyphenated(id)[13] == '-',
        hyphenated(id)[18] == '-',
        hyphenated(id)[23] == '-',
        i < 8 ==> hyphenated(id)[i] == id[i],
        8 <= i < 12 ==> hyphenated(id)[i + 1] == id[i],
        12 <= i < 16 ==> hyphenated(id)[i + 2] == id[i],
        16 <= i < 20 ==> hyphenated(id)[i + 3] == id[i],
        20 <= i ==> hyphenated(id)[i + 4] == id[i],
{
    reveal_strlit("-");
}

} // verus!
