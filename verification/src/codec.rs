//! The canonical serialized form of an obfuscated credential and of a role.
//!
//! A credential is laid out as forty bytes — the four digest limbs and the
//! salt, each little-endian — and armored as eighty lowercase hexadecimal
//! digits, so that it can be persisted as opaque text and reproduced
//! bit-identically on the read path. A role is a single tag byte.

use crate::password::{Password, U256};
use crate::Role;
use vstd::arithmetic::div_mod::{
    lemma_fundamental_div_mod_converse_div, lemma_fundamental_div_mod_converse_mod,
};
use vstd::bytes::{
    lemma_auto_spec_u64_to_from_le_bytes, spec_u64_from_le_bytes, spec_u64_to_le_bytes,
    u64_from_le_bytes, u64_to_le_bytes,
};
use vstd::prelude::*;
use vstd::slice::slice_subrange;

verus! {

/// The lowercase hexadecimal digit for a value below sixteen.
pub open spec fn hex_char(n: int) -> u8 {
    if n < 10 {
        (48 + n) as u8
    } else {
        (87 + n) as u8
    }
}

/// Whether a byte is a lowercase hexadecimal digit.
pub open spec fn is_hex_lower(c: u8) -> bool {
    (48 <= c && c <= 57) || (97 <= c && c <= 102)
}

/// The value of a lowercase hexadecimal digit.
pub open spec fn hex_val(c: u8) -> int {
    if 48 <= c && c <= 57 {
        c - 48
    } else {
        c - 87
    }
}

/// The hexadecimal armor of a byte string: two digits per byte, high nibble
/// first.
pub open spec fn bytes_to_hex(s: Seq<u8>) -> Seq<u8> {
    Seq::new(
        2 * s.len(),
        |i: int|
            if i % 2 == 0 {
                hex_char(s[i / 2] as int / 16)
            } else {
                hex_char(s[i / 2] as int % 16)
            },
    )
}

/// Whether every byte of a string is a lowercase hexadecimal digit.
pub open spec fn is_hex_seq(s: Seq<u8>) -> bool {
    forall|i: int| 0 <= i < s.len() ==> is_hex_lower(#[trigger] s[i])
}

/// The byte string denoted by a hexadecimal armor.
pub open spec fn hex_to_bytes(s: Seq<u8>) -> Seq<u8> {
    Seq::new(s.len() / 2, |i: int| (hex_val(s[2 * i]) * 16 + hex_val(s[2 * i + 1])) as u8)
}

proof fn lemma_hex_char_val(n: int)
    requires
        0 <= n < 16,
    ensures
        is_hex_lower(hex_char(n)),
        hex_val(hex_char(n)) == n,
{
}

proof fn lemma_hex_val_char(c: u8)
    requires
        is_hex_lower(c),
    ensures
        0 <= hex_val(c) < 16,
        hex_char(hex_val(c)) == c,
{
}

/// Armoring then parsing a byte string reproduces it exactly.
pub proof fn lemma_hex_round_trip(s: Seq<u8>)
    ensures
        bytes_to_hex(s).len() == 2 * s.len(),
        is_hex_seq(bytes_to_hex(s)),
        hex_to_bytes(bytes_to_hex(s)) == s,
{
    let h = bytes_to_hex(s);
    assert forall|i: int| 0 <= i < h.len() implies is_hex_lower(h[i]) by {
        let b = s[i / 2] as int;
        lemma_hex_char_val(b / 16);
        lemma_hex_char_val(b % 16);
    }
    assert forall|i: int| 0 <= i < s.len() implies hex_to_bytes(h)[i] == s[i] by {
        let b = s[i] as int;
        lemma_hex_char_val(b / 16);
        lemma_hex_char_val(b % 16);
        assert(h[2 * i] == hex_char(b / 16));
        assert(h[2 * i + 1] == hex_char(b % 16));
        assert(b / 16 * 16 + b % 16 == b) by {
            vstd::arithmetic::div_mod::lemma_fundamental_div_mod(b, 16);
        }
    }
    assert(hex_to_bytes(h) =~= s);
}

/// Parsing then re-armoring a well-formed hexadecimal string reproduces it
/// exactly: the armor is canonical.
pub proof fn lemma_hex_parse_inverse(s: Seq<u8>)
    requires
        s.len() % 2 == 0,
        is_hex_seq(s),
    ensures
        hex_to_bytes(s).len() * 2 == s.len(),
        bytes_to_hex(hex_to_bytes(s)) == s,
{
    let b = hex_to_bytes(s);
    assert forall|i: int| 0 <= i < s.len() implies bytes_to_hex(b)[i] == s[i] by {
        let j = i / 2;
        let hi = hex_val(s[2 * j]);
        let lo = hex_val(s[2 * j + 1]);
        lemma_hex_val_char(s[2 * j]);
        lemma_hex_val_char(s[2 * j + 1]);
        assert(b[j] == (hi * 16 + lo) as u8);
        lemma_fundamental_div_mod_converse_div(hi * 16 + lo, 16, hi, lo);
        lemma_fundamental_div_mod_converse_mod(hi * 16 + lo, 16, hi, lo);
        if i % 2 == 0 {
            assert(i == 2 * j);
            assert(bytes_to_hex(b)[i] == hex_char(b[i / 2] as int / 16));
        } else {
            assert(i == 2 * j + 1);
            assert(bytes_to_hex(b)[i] == hex_char(b[i / 2] as int % 16));
        }
    }
    assert(bytes_to_hex(b) =~= s);
}

fn hex_char_exec(n: u8) -> (r: u8)
    requires
        n < 16,
    ensures
        r == hex_char(n as int),
{
    if n < 10 {
        n + 48
    } else {
        n + 87
    }
}

fn hex_val_exec(c: u8) -> (r: u8)
    requires
        is_hex_lower(c),
    ensures
        r as int == hex_val(c),
{
    if c <= 57 {
        c - 48
    } else {
        c - 87
    }
}

fn is_hex_lower_exec(c: u8) -> (r: bool)
    ensures
        r == is_hex_lower(c),
{
    (48 <= c && c <= 57) || (97 <= c && c <= 102)
}

/// Armor a byte string as lowercase hexadecimal text.
fn hex_of_bytes(v: &[u8]) -> (r: Vec<u8>)
    ensures
        r@ == bytes_to_hex(v@),
{
    let ghost target = bytes_to_hex(v@);
    let mut r: Vec<u8> = Vec::new();
    let mut i: usize = 0;
    while i < v.len()
        invariant
            i <= v.len(),
            target == bytes_to_hex(v@),
            target.len() == 2 * v@.len(),
            r@.len() == 2 * i,
            forall|j: int| 0 <= j < r@.len() ==> r@[j] == target[j],
        decreases v.len() - i,
    {
        let b = v[i];
        r.push(hex_char_exec(b / 16));
        r.push(hex_char_exec(b % 16));
        i = i + 1;
    }
    assert(r@ =~= target);
    r
}

/// Parse lowercase hexadecimal text back into bytes; rejects text of odd
/// length or with any byte that is not a lowercase hexadecimal digit.
fn bytes_of_hex(v: &[u8]) -> (r: Option<Vec<u8>>)
    ensures
        match r {
            Some(b) => v@.len() % 2 == 0 && is_hex_seq(v@) && b@ == hex_to_bytes(v@),
            None => !(v@.len() % 2 == 0 && is_hex_seq(v@)),
        },
{
    if v.len() % 2 != 0 {
        return None;
    }
    let ghost target = hex_to_bytes(v@);
    let mut b: Vec<u8> = Vec::new();
    let mut i: usize = 0;
    while i + 1 < v.len()
        invariant
            i % 2 == 0,
            i <= v.len(),
            v@.len() % 2 == 0,
            target == hex_to_bytes(v@),
            b@.len() * 2 == i,
            forall|j: int| 0 <= j < i ==> is_hex_lower(#[trigger] v@[j]),
            forall|j: int| 0 <= j < b@.len() ==> b@[j] == target[j],
        decreases v.len() - i,
    {
        let hi = v[i];
        let lo = v[i + 1];
        if !is_hex_lower_exec(hi) || !is_hex_lower_exec(lo) {
            return None;
        }
        let hv = hex_val_exec(hi);
        let lv = hex_val_exec(lo);
        b.push(hv * 16 + lv);
        i = i + 2;
    }
    assert(i == v.len());
    assert(is_hex_seq(v@));
    assert(b@ =~= target);
    Some(b)
}

impl Password {
    /// The forty raw bytes of a credential: the four digest limbs and then
    /// the salt, each little-endian.
    pub open spec fn spec_le_bytes(self) -> Seq<u8> {
        spec_u64_to_le_bytes(self.hash.u_0) + spec_u64_to_le_bytes(self.hash.u_1)
            + spec_u64_to_le_bytes(self.hash.u_2) + spec_u64_to_le_bytes(self.hash.u_3)
            + spec_u64_to_le_bytes(self.salt)
    }

    /// The canonical serialized form of a credential: its raw bytes armored
    /// as eighty lowercase hexadecimal digits.
    pub open spec fn spec_encoded(self) -> Seq<u8> {
        bytes_to_hex(self.spec_le_bytes())
    }

    /// The credential denoted by a well-formed serialized form.
    pub open spec fn spec_decoded(s: Seq<u8>) -> Password {
        let b = hex_to_bytes(s);
        Password {
            hash: U256 {
                u_0: spec_u64_from_le_bytes(b.subrange(0, 8)),
                u_1: spec_u64_from_le_bytes(b.subrange(8, 16)),
                u_2: spec_u64_from_le_bytes(b.subrange(16, 24)),
                u_3: spec_u64_from_le_bytes(b.subrange(24, 32)),
            },
            salt: spec_u64_from_le_bytes(b.subrange(32, 40)),
        }
    }

    /// Whether a byte string is the serialized form of some credential.
    pub open spec fn is_encoded(s: Seq<u8>) -> bool {
        s.len() == 80 && is_hex_seq(s)
    }

    /// Serialize the credential into its canonical text form.
    pub fn encode(&self) -> (r: Vec<u8>)
        ensures
            r@ == self.spec_encoded(),
            Password::is_encoded(r@),
            Password::spec_decoded(r@) == *self,
    {
        proof {
            lemma_auto_spec_u64_to_from_le_bytes();
        }
        let mut raw: Vec<u8> = Vec::new();
        let mut part = u64_to_le_bytes(self.hash.u_0);
        raw.append(&mut part);
        let mut part = u64_to_le_bytes(self.hash.u_1);
        raw.append(&mut part);
        let mut part = u64_to_le_bytes(self.hash.u_2);
        raw.append(&mut part);
        let mut part = u64_to_le_bytes(self.hash.u_3);
        raw.append(&mut part);
        let mut part = u64_to_le_bytes(self.salt);
        raw.append(&mut part);
        assert(raw@ =~= self.spec_le_bytes());
        let r = hex_of_bytes(raw.as_slice());
        proof {
            lemma_hex_round_trip(self.spec_le_bytes());
            lemma_le_bytes_decoded(*self);
        }
        r
    }

    /// Parse a serialized credential. Returns the credential whose canonical
    /// form is the input, and nothing on any other input: corrupted text is
    /// surfaced, never mistaken for a credential.
    pub fn decode(text: &[u8]) -> (r: Option<Password>)
        ensures
            match r {
                Some(p) => {
                    &&& Password::is_encoded(text@)
                    &&& p == Password::spec_decoded(text@)
                    &&& text@ == p.spec_encoded()
                },
                None => !Password::is_encoded(text@),
            },
    {
        if text.len() != 80 {
            return None;
        }
        let raw = match bytes_of_hex(text) {
            Some(raw) => raw,
            None => {
                return None;
            },
        };
        proof {
            lemma_hex_parse_inverse(text@);
        }
        let bs = raw.as_slice();
        let u_0 = u64_from_le_bytes(slice_subrange(bs, 0, 8));
        let u_1 = u64_from_le_bytes(slice_subrange(bs, 8, 16));
        let u_2 = u64_from_le_bytes(slice_subrange(bs, 16, 24));
        let u_3 = u64_from_le_bytes(slice_subrange(bs, 24, 32));
        let salt = u64_from_le_bytes(slice_subrange(bs, 32, 40));
        let p = Password { hash: U256 { u_0, u_1, u_2, u_3 }, salt };
        proof {
            lemma_auto_spec_u64_to_from_le_bytes();
            assert(p.spec_le_bytes() =~= raw@);
            assert(text@ == p.spec_encoded());
        }
        Some(p)
    }
}

proof fn lemma_le_bytes_decoded(p: Password)
    ensures
        Password::spec_decoded(bytes_to_hex(p.spec_le_bytes())) == p,
{
    lemma_auto_spec_u64_to_from_le_bytes();
    lemma_hex_round_trip(p.spec_le_bytes());
    let b = p.spec_le_bytes();
    assert(b.subrange(0, 8) =~= spec_u64_to_le_bytes(p.hash.u_0));
    assert(b.subrange(8, 16) =~= spec_u64_to_le_bytes(p.hash.u_1));
    assert(b.subrange(16, 24) =~= spec_u64_to_le_bytes(p.hash.u_2));
    assert(b.subrange(24, 32) =~= spec_u64_to_le_bytes(p.hash.u_3));
    assert(b.subrange(32, 40) =~= spec_u64_to_le_bytes(p.salt));
}

/// Serialization round trip: the canonical form of a credential parses back
/// to the identical digest and salt.
pub proof fn lemma_serialization_round_trip(p: Password)
    ensures
        Password::is_encoded(p.spec_encoded()),
        Password::spec_decoded(p.spec_encoded()) == p,
{
    lemma_auto_spec_u64_to_from_le_bytes();
    lemma_hex_round_trip(p.spec_le_bytes());
    lemma_le_bytes_decoded(p);
}

/// The tag byte of a role.
pub open spec fn spec_encoded_role(role: Role) -> Seq<u8> {
    match role {
        Role::Admin => seq![97u8],
        Role::Standard => seq![115u8],
        Role::Guest => seq![103u8],
    }
}

/// Serialize a role as its tag byte.
pub fn encode_role(role: &Role) -> (r: Vec<u8>)
    ensures
        r@ == spec_encoded_role(*role),
{
    let mut r: Vec<u8> = Vec::new();
    match role {
        Role::Admin => r.push(97),
        Role::Standard => r.push(115),
        Role::Guest => r.push(103),
    }
    proof {
        assert(r@ =~= spec_encoded_role(*role));
    }
    r
}

/// The role denoted by a serialized tag, if the tag is well formed.
pub open spec fn spec_decoded_role(s: Seq<u8>) -> Option<Role> {
    if s == spec_encoded_role(Role::Admin) {
        Some(Role::Admin)
    } else if s == spec_encoded_role(Role::Standard) {
        Some(Role::Standard)
    } else if s == spec_encoded_role(Role::Guest) {
        Some(Role::Guest)
    } else {
        None
    }
}

/// Role round trip: a role's tag parses back to the same role.
pub proof fn lemma_role_round_trip(role: Role)
    ensures
        spec_decoded_role(spec_encoded_role(role)) == Some(role),
{
    assert(spec_encoded_role(Role::Admin)[0] == 97);
    assert(spec_encoded_role(Role::Standard)[0] == 115);
    assert(spec_encoded_role(Role::Guest)[0] == 103);
}

/// Parse a serialized role. Returns the role whose tag is the input, and
/// nothing on any other input.
pub fn decode_role(text: &[u8]) -> (r: Option<Role>)
    ensures
        r == spec_decoded_role(text@),
        match r {
            Some(role) => text@ == spec_encoded_role(role),
            None => forall|role: Role| text@ != spec_encoded_role(role),
        },
{
    if text.len() != 1 {
        assert(forall|role: Role| text@ != spec_encoded_role(role)) by {
            assert forall|role: Role| text@ != spec_encoded_role(role) by {
                assert(spec_encoded_role(role).len() == 1);
            }
        }
        return None;
    }
    let c = text[0];
    if c == 97 {
        proof {
            assert(text@ =~= seq![97u8]);
        }
        Some(Role::Admin)
    } else if c == 115 {
        proof {
            assert(text@ =~= seq![115u8]);
        }
        Some(Role::Standard)
    } else if c == 103 {
        proof {
            assert(text@ =~= seq![103u8]);
        }
        Some(Role::Guest)
    } else {
        proof {
            assert forall|role: Role| text@ != spec_encoded_role(role) by {
                assert(spec_encoded_role(role)[0] != text@[0]);
            }
        }
        None
    }
}

} // verus!
