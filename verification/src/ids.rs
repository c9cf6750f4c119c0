//! Identifiers for diagram elements and relationships.
//!
//! An identifier is a 128-bit value generated at creation time. It is stable
//! for the lifetime of the element or relationship it names, serves as the
//! lookup key in the diagram, and is rendered as 32 lowercase hex digits in
//! the exported notations.

use vstd::prelude::*;

verus! {

/// A process-unique 128-bit identifier for elements and relationships.
#[derive(Clone, Copy, PartialEq, Eq, Structural, Hash, Debug)]
pub struct ElementId(pub u128);

/// Relies on `uuid::Uuid::new_v4` followed by `Uuid::as_u128`: a random
/// 128-bit value whose version nibble (bits 76..80) is always 4.
#[verifier::external_body]
fn random_id_bits() -> (r: u128)
    ensures
        r / 0x10000000000000000000 % 16 == 4,
{
    uuid::Uuid::new_v4().as_u128()
}

impl ElementId {
    /// A fresh random identifier.
    pub fn new_v4() -> (r: ElementId)
        ensures
            r.0 != 0,
    {
        let bits = random_id_bits();
        assert(bits != 0) by {
            assert(bits / 0x10000000000000000000 % 16 == 4);
        };
        ElementId(bits)
    }

    /// The all-zero identifier, never produced by `new_v4`.
    pub fn nil() -> (r: ElementId)
        ensures
            r.0 == 0,
    {
        ElementId(0)
    }
}

/// The character for one hex digit value.
pub open spec fn hex_digit(d: nat) -> char {
    if d == 0 {
        '0'
    } else if d == 1 {
        '1'
    } else if d == 2 {
        '2'
    } else if d == 3 {
        '3'
    } else if d == 4 {
        '4'
    } else if d == 5 {
        '5'
    } else if d == 6 {
        '6'
    } else if d == 7 {
        '7'
    } else if d == 8 {
        '8'
    } else if d == 9 {
        '9'
    } else if d == 10 {
        'a'
    } else if d == 11 {
        'b'
    } else if d == 12 {
        'c'
    } else if d == 13 {
        'd'
    } else if d == 14 {
        'e'
    } else {
        'f'
    }
}

/// The `n` hex digits of `v`, least significant first.
pub open spec fn hex_le(v: nat, n: nat) -> Seq<char>
    decreases n,
{
    if n == 0 {
        Seq::empty()
    } else {
        seq![hex_digit(v % 16)] + hex_le(v / 16, (n - 1) as nat)
    }
}

/// The 32 hex digits of an identifier, most significant first: the compact
/// form the exporters embed in generated source ids.
pub open spec fn id_hex(v: u128) -> Seq<char> {
    hex_le(v as nat, 32).reverse()
}

proof fn lemma_hex_le_len(v: nat, n: nat)
    ensures
        hex_le(v, n).len() == n,
    decreases n,
{
    if n > 0 {
        lemma_hex_le_len(v / 16, (n - 1) as nat);
    }
}

fn hex_digit_char(d: u128) -> (c: char)
    requires
        d < 16,
    ensures
        c == hex_digit(d as nat),
{
    if d == 0 {
        '0'
    } else if d == 1 {
        '1'
    } else if d == 2 {
        '2'
    } else if d == 3 {
        '3'
    } else if d == 4 {
        '4'
    } else if d == 5 {
        '5'
    } else if d == 6 {
        '6'
    } else if d == 7 {
        '7'
    } else if d == 8 {
        '8'
    } else if d == 9 {
        '9'
    } else if d == 10 {
        'a'
    } else if d == 11 {
        'b'
    } else if d == 12 {
        'c'
    } else if d == 13 {
        'd'
    } else if d == 14 {
        'e'
    } else {
        'f'
    }
}

impl ElementId {
    /// The identifier as 32 lowercase hex digits, most significant first.
    pub fn to_hex(&self) -> (s: Vec<char>)
        ensures
            s@ == id_hex(self.0),
            s@.len() == 32,
    {
        let mut v: u128 = self.0;
        let mut le: Vec<char> = Vec::new();
        let ghost orig: nat = self.0 as nat;
        let mut i: usize = 0;
        while i < 32
            invariant
                0 <= i <= 32,
                le@.len() == i,
                le@ + hex_le(v as nat, (32 - i) as nat) == hex_le(orig, 32),
            decreases 32 - i,
        {
            let d = v % 16;
            le.push(hex_digit_char(d));
            proof {
                assert(hex_le(v as nat, (32 - i) as nat) == seq![hex_digit(v as nat % 16)]
                    + hex_le(v as nat / 16, (31 - i) as nat));
                assert(le@ + hex_le(v as nat / 16, (31 - i) as nat) =~= hex_le(orig, 32));
            }
            v = v / 16;
            i = i + 1;
        }
        proof {
            assert(le@ =~= hex_le(orig, 32));
            lemma_hex_le_len(orig, 32);
        }
        let mut out: Vec<char> = Vec::new();
        let mut j: usize = 0;
        while j < 32
            invariant
                0 <= j <= 32,
                le@ == hex_le(orig, 32),
                le@.len() == 32,
                out@.len() == j,
                forall|k: int| 0 <= k < j ==> out@[k] == le@[31 - k],
            decreases 32 - j,
        {
            out.push(le[31 - j]);
            j = j + 1;
        }
        proof {
            assert(out@ =~= hex_le(orig, 32).reverse());
        }
        out
    }
}

} // verus!
