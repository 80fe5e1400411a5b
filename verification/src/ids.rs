//! Identifiers: 128-bit UUID values, made by the `uuid` crate, and their
//! hyphenated text.

use vstd::prelude::*;

verus! {

/// The version number of a UUID: the nibble at bits 76..80.
pub open spec fn uuid_version(n: u128) -> u128 {
    (n >> 76u128) & 0xfu128
}

/// The UUID has the RFC 4122 variant: bits 62..64 are `0b10`.
pub open spec fn rfc4122_variant(n: u128) -> bool {
    (n >> 62u128) & 0x3u128 == 2
}

/// The name-based (version 5, SHA-1) UUID of `name` in `namespace`, as
/// computed by `uuid::Uuid::new_v5` over the UTF-8 bytes of `name`.
pub uninterp spec fn v5_uuid(namespace: u128, name: Seq<char>) -> u128;

/// Calls `uuid::Uuid::new_v5(namespace, name.as_bytes())`. Claims that the
/// result is `v5_uuid(namespace, name)` (the same namespace and name always
/// give the same identifier) and what `Builder::from_sha1_bytes` fixes of it:
/// version 5 and the RFC 4122 variant. The hash bits are not stated.
#[verifier::external_body]
pub fn name_based_id(namespace: u128, name: &str) -> (r: u128)
    ensures
        r == v5_uuid(namespace, name@),
        uuid_version(r) == 5,
        rfc4122_variant(r),
{
    uuid::Uuid::new_v5(&uuid::Uuid::from_u128(namespace), name.as_bytes()).as_u128()
}

/// Calls `uuid::Uuid::new_v4`, a random identifier. Claims only what the
/// crate's source fixes of every outcome: the version nibble (bits 76..80)
/// is 4 and the variant bits (62..64) are `0b10`; the other bits are random.
/// It panics only when the operating system's random source fails, which
/// depends on the environment, not on any input.
#[verifier::external_body]
pub fn random_id() -> (r: u128)
    ensures
        uuid_version(r) == 4,
        rfc4122_variant(r),
{
    uuid::Uuid::new_v4().as_u128()
}

/// The four bits of `id` at hexadecimal digit `k`, counting from the most
/// significant digit (0) to the least significant (31).
pub open spec fn nibble(id: u128, k: u128) -> u128 {
    (id >> (124 - 4 * k) as u128) & 0xfu128
}

/// The lower-case hexadecimal digit of `d` (below 16).
pub open spec fn hex_text(d: u128) -> Seq<char> {
    if d == 0 {
        "0"@
    } else if d == 1 {
        "1"@
    } else if d == 2 {
        "2"@
    } else if d == 3 {
        "3"@
    } else if d == 4 {
        "4"@
    } else if d == 5 {
        "5"@
    } else if d == 6 {
        "6"@
    } else if d == 7 {
        "7"@
    } else if d == 8 {
        "8"@
    } else if d == 9 {
        "9"@
    } else if d == 10 {
        "a"@
    } else if d == 11 {
        "b"@
    } else if d == 12 {
        "c"@
    } else if d == 13 {
        "d"@
    } else if d == 14 {
        "e"@
    } else {
        "f"@
    }
}

/// The hexadecimal digits `a` up to (not including) `b` of `id`.
pub open spec fn hex_run(id: u128, a: nat, b: nat) -> Seq<char>
    decreases b - a,
{
    if b <= a {
        Seq::empty()
    } else {
        hex_run(id, a, (b - 1) as nat) + hex_text(nibble(id, (b - 1) as u128))
    }
}

/// The hyphenated lower-case text of a UUID, as `uuid::Uuid`'s `Display`
/// writes it: its 32 hexadecimal digits, most significant first, in groups
/// of 8, 4, 4, 4 and 12 joined by hyphens (for example
/// `1b671a64-40d5-491e-99b0-da01ff1f3341`).
pub open spec fn uuid_text(id: u128) -> Seq<char> {
    hex_run(id, 0, 8) + "-"@ + hex_run(id, 8, 12) + "-"@ + hex_run(id, 12, 16) + "-"@ + hex_run(id, 16, 20) + "-"@
        + hex_run(id, 20, 32)
}

/// The lower-case hexadecimal digit of `d`.
fn hex_digit(d: u128) -> (r: &'static str)
    ensures
        r@ == hex_text(d),
{
    if d == 0 {
        "0"
    } else if d == 1 {
        "1"
    } else if d == 2 {
        "2"
    } else if d == 3 {
        "3"
    } else if d == 4 {
        "4"
    } else if d == 5 {
        "5"
    } else if d == 6 {
        "6"
    } else if d == 7 {
        "7"
    } else if d == 8 {
        "8"
    } else if d == 9 {
        "9"
    } else if d == 10 {
        "a"
    } else if d == 11 {
        "b"
    } else if d == 12 {
        "c"
    } else if d == 13 {
        "d"
    } else if d == 14 {
        "e"
    } else {
        "f"
    }
}

/// Appends the hexadecimal digits `a` up to `b` of `id` to `s`.
fn append_hex_run(s: &mut String, id: u128, a: u128, b: u128)
    requires
        a <= b <= 32,
    ensures
        final(s)@ == old(s)@ + hex_run(id, a as nat, b as nat),
{
    let mut k: u128 = a;
    assert(hex_run(id, a as nat, a as nat) =~= Seq::<char>::empty());
    assert(s@ =~= old(s)@ + hex_run(id, a as nat, a as nat));
    while k < b
        invariant
            a <= k <= b <= 32,
            s@ == old(s)@ + hex_run(id, a as nat, k as nat),
        decreases b - k,
    {
        let d = (id >> (124 - 4 * k)) & 0xf;
        s.append(hex_digit(d));
        assert(hex_run(id, a as nat, (k + 1) as nat) == hex_run(id, a as nat, k as nat) + hex_text(nibble(id, k)));
        assert(s@ =~= old(s)@ + hex_run(id, a as nat, (k + 1) as nat));
        k += 1;
    }
}

/// The text of a UUID, hyphenated and lower-case, as `uuid::Uuid`'s
/// `Display` writes it.
pub fn id_text(id: u128) -> (r: String)
    ensures
        r@ == uuid_text(id),
{
    let mut s = String::new();
    append_hex_run(&mut s, id, 0, 8);
    s.append("-");
    append_hex_run(&mut s, id, 8, 12);
    s.append("-");
    append_hex_run(&mut s, id, 12, 16);
    s.append("-");
    append_hex_run(&mut s, id, 16, 20);
    s.append("-");
    append_hex_run(&mut s, id, 20, 32);
    assert(s@ =~= uuid_text(id));
    s
}

} // verus!
