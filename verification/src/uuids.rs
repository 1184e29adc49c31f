//! Universally unique identifiers, as their sixteen bytes.
use vstd::prelude::*;

verus! {

/// What `Uuid::parse_str` makes of a text: the sixteen bytes, or the sentence in which it says
/// why it is none.
pub uninterp spec fn parsed_uuid(text: Seq<char>) -> Result<Seq<u8>, Seq<char>>;

/// `Uuid::parse_str`: the same text always gives the same identifier, or the same error. Which
/// texts it takes is not stated.
#[verifier::external_body]
pub(crate) fn parse_uuid(text: &str) -> (id: Result<[u8; 16], String>)
    ensures
        match id {
            Ok(bytes) => parsed_uuid(text@) == Ok::<Seq<u8>, Seq<char>>(bytes@),
            Err(error) => parsed_uuid(text@) == Err::<Seq<u8>, Seq<char>>(error@),
        },
{
    match uuid::Uuid::parse_str(text) {
        Ok(id) => Ok(id.into_bytes()),
        Err(error) => Err(error.to_string()),
    }
}

/// The bytes carry the marks of a random identifier: version 4, of the variant of RFC 9562.
pub open spec fn marked_random(id: Seq<u8>) -> bool {
    &&& id.len() == 16
    &&& id[6] / 16 == 4
    &&& id[8] / 64 == 2
}

/// `Uuid::new_v4`: an identifier with the marks of a random one. Of the other bits nothing is
/// stated: they come from the random source of the operating system, without which the call
/// panics.
#[verifier::external_body]
pub(crate) fn random_uuid() -> (id: [u8; 16])
    ensures
        marked_random(id@),
{
    uuid::Uuid::new_v4().into_bytes()
}

/// Thirty-two digits in groups of 8, 4, 4, 4 and 12 with hyphens between them.
pub open spec fn hyphenated(digits: Seq<char>) -> Seq<char> {
    digits.subrange(0, 8) + seq!['-'] + digits.subrange(8, 12) + seq!['-'] + digits.subrange(
        12,
        16,
    ) + seq!['-'] + digits.subrange(16, 20) + seq!['-'] + digits.subrange(20, 32)
}

/// The text of an identifier: its bytes in lower-case hexadecimal, with hyphens.
pub open spec fn uuid_chars(id: Seq<u8>) -> Seq<char> {
    hyphenated(crate::text::hex_lower(id))
}

/// `Uuid`'s `Display`: the hyphenated text in lower case.
#[verifier::external_body]
pub(crate) fn uuid_text(id: [u8; 16]) -> (text: String)
    ensures
        text@ == uuid_chars(id@),
{
    uuid::Uuid::from_bytes(id).to_string()
}

/// The text of an identifier holds nothing but the digits `0` to `9` and `a` to `f` and hyphens.
pub proof fn lemma_uuid_chars(id: Seq<u8>)
    requires
        id.len() == 16,
    ensures
        uuid_chars(id).len() == 36,
        forall|i: int|
            0 <= i < 36 ==> '0' <= #[trigger] uuid_chars(id)[i] <= '9' || 'a' <= uuid_chars(id)[i]
                <= 'f' || uuid_chars(id)[i] == '-',
{
    crate::text::lemma_hex_lower_digits(id);
}

/// Different identifiers have different texts.
pub proof fn lemma_uuid_chars_injective(a: Seq<u8>, b: Seq<u8>)
    requires
        a.len() == 16,
        b.len() == 16,
        uuid_chars(a) == uuid_chars(b),
    ensures
        a == b,
{
    let x = crate::text::hex_lower(a);
    let y = crate::text::hex_lower(b);
    assert(x.len() == 32 && y.len() == 32);
    assert forall|i: int| 0 <= i < 32 implies x[i] == y[i] by {
        let j = if i < 8 {
            i
        } else if i < 12 {
            i + 1
        } else if i < 16 {
            i + 2
        } else if i < 20 {
            i + 3
        } else {
            i + 4
        };
        assert(hyphenated(x)[j] == x[i]);
        assert(hyphenated(y)[j] == y[i]);
    }
    assert(x =~= y);
    crate::text::lemma_hex_lower_injective(a, b);
}

/// Where the digits of an identifier stand in its text, which has a hyphen behind the eighth, the
/// twelfth, the sixteenth and the twentieth.
pub open spec fn digit_place(digit: int) -> int {
    digit + (if digit >= 8 {
        1int
    } else {
        0
    }) + (if digit >= 12 {
        1int
    } else {
        0
    }) + (if digit >= 16 {
        1int
    } else {
        0
    }) + (if digit >= 20 {
        1int
    } else {
        0
    })
}

/// The text of an identifier reads as its sixteen bytes, two lower-case hexadecimal digits each, in
/// groups of 8, 4, 4, 4 and 12 with hyphens between them.
pub proof fn law_uuid_reads_back(id: Seq<u8>)
    requires
        id.len() == 16,
    ensures
        uuid_chars(id).len() == 36,
        uuid_chars(id)[8] == '-' && uuid_chars(id)[13] == '-',
        uuid_chars(id)[18] == '-' && uuid_chars(id)[23] == '-',
        forall|i: int|
            0 <= i < 32 ==> '0' <= uuid_chars(id)[#[trigger] digit_place(i)] <= '9' || 'a'
                <= uuid_chars(id)[digit_place(i)] <= 'f',
        forall|i: int|
            0 <= i < 16 ==> #[trigger] id[i] == 16 * crate::text::hex_value(
                uuid_chars(id)[digit_place(2 * i)],
            ) + crate::text::hex_value(uuid_chars(id)[digit_place(2 * i + 1)]),
{
    let digits = crate::text::hex_lower(id);
    crate::text::law_hex_reads_back(id);
    assert forall|i: int| 0 <= i < 32 implies uuid_chars(id)[#[trigger] digit_place(i)]
        == digits[i] by {}
    assert forall|i: int| 0 <= i < 16 implies #[trigger] id[i] == 16 * crate::text::hex_value(
        uuid_chars(id)[digit_place(2 * i)],
    ) + crate::text::hex_value(uuid_chars(id)[digit_place(2 * i + 1)]) by {
        assert(uuid_chars(id)[digit_place(2 * i)] == digits[2 * i]);
        assert(uuid_chars(id)[digit_place(2 * i + 1)] == digits[2 * i + 1]);
    }
}

} // verus!
