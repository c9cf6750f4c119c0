//! Text persistence of diagrams.
//!
//! The format is a flat, versioned token stream: a `c4d` header, the
//! diagram's identification, then the elements and relationships, each
//! count-prefixed. Numbers are fixed-width lowercase hex, strings are
//! length-prefixed and taken verbatim — no escaping, so every string
//! round-trips exactly. `from_text` accepts exactly what `to_text` emits,
//! restores an unknown version tag to the current one, and rejects input
//! that would break the diagram's referential integrity.

use vstd::prelude::*;
use vstd::string::{StrSliceExecFns, StringExecFns};
use crate::diagram::{
    contains_id, distinct_ids, elem_views, find_index, rel_views, rels_valid, wf_view, Diagram,
    DiagramType, DiagramView,
};
use crate::elements::{ContainerData, ContainerType, Element, ElementType, PersonData, SystemData};
use crate::relationship::Relationship;
use crate::text::{chars_of, push_char};
use crate::elements::{ContainerTypeView, ElementTypeView, ElementView};
use crate::geometry::{Position, Size};
use crate::ids::{hex_digit, hex_le, ElementId};
use crate::relationship::RelationshipView;

verus! {

/// Powers of sixteen.
pub open spec fn pow16(n: nat) -> nat
    decreases n,
{
    if n == 0 {
        1nat
    } else {
        16 * pow16((n - 1) as nat)
    }
}

/// The value of one hex digit character, if it is one.
pub open spec fn hex_val(c: char) -> Option<nat> {
    if c == '0' {
        Some(0nat)
    } else if c == '1' {
        Some(1nat)
    } else if c == '2' {
        Some(2nat)
    } else if c == '3' {
        Some(3nat)
    } else if c == '4' {
        Some(4nat)
    } else if c == '5' {
        Some(5nat)
    } else if c == '6' {
        Some(6nat)
    } else if c == '7' {
        Some(7nat)
    } else if c == '8' {
        Some(8nat)
    } else if c == '9' {
        Some(9nat)
    } else if c == 'a' {
        Some(10nat)
    } else if c == 'b' {
        Some(11nat)
    } else if c == 'c' {
        Some(12nat)
    } else if c == 'd' {
        Some(13nat)
    } else if c == 'e' {
        Some(14nat)
    } else if c == 'f' {
        Some(15nat)
    } else {
        None
    }
}

/// A number as exactly `n` hex digits, most significant first, followed by
/// one space.
pub open spec fn emit_num(v: nat, n: nat) -> Seq<char> {
    hex_le(v, n).reverse() + " "@
}

/// Reads exactly `n` hex digits from the front, most significant first.
pub open spec fn parse_digits(s: Seq<char>, n: nat) -> Option<(nat, Seq<char>)>
    decreases n,
{
    if n == 0 {
        Some((0nat, s))
    } else {
        match parse_digits(s, (n - 1) as nat) {
            Some((v, rest)) => {
                if rest.len() > 0 {
                    match hex_val(rest[0]) {
                        Some(d) => Some(((v * 16 + d) as nat, rest.drop_first())),
                        None => None,
                    }
                } else {
                    None
                }
            },
            None => None,
        }
    }
}

/// Reads an `n`-digit number and its trailing space.
pub open spec fn parse_num(s: Seq<char>, n: nat) -> Option<(nat, Seq<char>)> {
    match parse_digits(s, n) {
        Some((v, rest)) => {
            if rest.len() > 0 && rest[0] == ' ' {
                Some((v, rest.drop_first()))
            } else {
                None
            }
        },
        None => None,
    }
}

/// The digit characters map back to their values.
proof fn lemma_hex_val_digit(d: nat)
    requires
        d < 16,
    ensures
        hex_val(hex_digit(d)) == Some(d),
{
}

proof fn lemma_hex_le_len_local(v: nat, n: nat)
    ensures
        hex_le(v, n).len() == n,
    decreases n,
{
    if n > 0 {
        lemma_hex_le_len_local(v / 16, (n - 1) as nat);
    }
}

/// Parsing the emitted digits of any value that fits in `n` digits yields
/// the value back and leaves the tail untouched.
proof fn lemma_parse_digits_round(v: nat, n: nat, rest: Seq<char>)
    requires
        v < pow16(n),
    ensures
        parse_digits(hex_le(v, n).reverse() + rest, n) == Some((v, rest)),
    decreases n,
{
    if n == 0 {
        assert(hex_le(v, 0).reverse() + rest =~= rest);
    } else {
        assert(hex_le(v, n) == seq![hex_digit(v % 16)] + hex_le(v / 16, (n - 1) as nat));
        lemma_hex_le_len_local(v / 16, (n - 1) as nat);
        assert(hex_le(v, n).reverse() =~= hex_le(v / 16, (n - 1) as nat).reverse() + seq![
            hex_digit(v % 16),
        ]);
        let mid = seq![hex_digit(v % 16)] + rest;
        assert(hex_le(v, n).reverse() + rest =~= hex_le(v / 16, (n - 1) as nat).reverse() + mid);
        assert(v / 16 < pow16((n - 1) as nat)) by (nonlinear_arith)
            requires
                v < pow16(n),
                pow16(n) == 16 * pow16((n - 1) as nat),
        ;
        lemma_parse_digits_round(v / 16, (n - 1) as nat, mid);
        assert(mid[0] == hex_digit(v % 16));
        lemma_hex_val_digit(v % 16);
        assert(mid.drop_first() =~= rest);
        assert((v / 16) * 16 + v % 16 == v);
    }
}

/// Parsing an emitted number yields it back.
pub proof fn lemma_parse_num_round(v: nat, n: nat, rest: Seq<char>)
    requires
        v < pow16(n),
    ensures
        parse_num(emit_num(v, n) + rest, n) == Some((v, rest)),
{
    let sp = " "@;
    reveal_strlit(" ");
    assert(emit_num(v, n) + rest =~= hex_le(v, n).reverse() + (sp + rest));
    lemma_parse_digits_round(v, n, sp + rest);
    assert((sp + rest)[0] == ' ');
    assert((sp + rest).drop_first() =~= rest);
}

/// Every u64 fits in 16 hex digits.
pub proof fn lemma_u64_fits()
    ensures
        pow16(16) == 0x1_0000_0000_0000_0000,
{
    reveal_with_fuel(pow16, 17);
}

/// Every u128 fits in 32 hex digits.
pub proof fn lemma_u128_fits()
    ensures
        pow16(32) == 0x1_0000_0000_0000_0000_0000_0000_0000_0000,
{
    reveal_with_fuel(pow16, 33);
}

/// A string as its length, then its characters verbatim, then one space.
pub open spec fn emit_str(s: Seq<char>) -> Seq<char> {
    emit_num(s.len(), 16) + s + " "@
}

/// Reads a length-prefixed string.
pub open spec fn parse_str(s: Seq<char>) -> Option<(Seq<char>, Seq<char>)> {
    match parse_num(s, 16) {
        Some((n, rest)) => {
            if rest.len() >= n + 1 && rest[n as int] == ' ' {
                Some((rest.take(n as int), rest.skip(n as int + 1)))
            } else {
                None
            }
        },
        None => None,
    }
}

/// Parsing an emitted string yields it back.
pub proof fn lemma_parse_str_round(s: Seq<char>, rest: Seq<char>)
    requires
        s.len() < pow16(16),
    ensures
        parse_str(emit_str(s) + rest) == Some((s, rest)),
{
    let sp = " "@;
    reveal_strlit(" ");
    let tail = s + sp + rest;
    assert(emit_str(s) + rest =~= emit_num(s.len(), 16) + tail);
    lemma_parse_num_round(s.len(), 16, tail);
    assert(tail.len() >= s.len() + 1);
    assert(tail[s.len() as int] == ' ');
    assert(tail.take(s.len() as int) =~= s);
    assert(tail.skip(s.len() as int + 1) =~= rest);
}

/// A signed number: an explicit sign character, then the magnitude.
pub open spec fn emit_i64(x: int) -> Seq<char> {
    if x < 0 {
        seq!['-'] + emit_num((-x) as nat, 16)
    } else {
        seq!['+'] + emit_num(x as nat, 16)
    }
}

/// Reads a signed number; the magnitude must fit the signed range.
pub open spec fn parse_i64(s: Seq<char>) -> Option<(int, Seq<char>)> {
    if s.len() == 0 {
        None
    } else if s[0] == '-' {
        match parse_num(s.drop_first(), 16) {
            Some((v, rest)) => {
                if v <= 0x8000_0000_0000_0000 {
                    Some((-(v as int), rest))
                } else {
                    None
                }
            },
            None => None,
        }
    } else if s[0] == '+' {
        match parse_num(s.drop_first(), 16) {
            Some((v, rest)) => {
                if v <= 0x7fff_ffff_ffff_ffff {
                    Some((v as int, rest))
                } else {
                    None
                }
            },
            None => None,
        }
    } else {
        None
    }
}

/// Parsing an emitted signed number yields it back.
pub proof fn lemma_parse_i64_round(x: int, rest: Seq<char>)
    requires
        i64::MIN <= x <= i64::MAX,
    ensures
        parse_i64(emit_i64(x) + rest) == Some((x, rest)),
{
    lemma_u64_fits();
    if x < 0 {
        assert((emit_i64(x) + rest)[0] == '-');
        assert((emit_i64(x) + rest).drop_first() =~= emit_num((-x) as nat, 16) + rest);
        lemma_parse_num_round((-x) as nat, 16, rest);
    } else {
        assert((emit_i64(x) + rest)[0] == '+');
        assert((emit_i64(x) + rest).drop_first() =~= emit_num(x as nat, 16) + rest);
        lemma_parse_num_round(x as nat, 16, rest);
    }
}

/// A fixed literal tag at the front of the stream.
pub open spec fn parse_lit(s: Seq<char>, lit: Seq<char>) -> Option<Seq<char>> {
    if lit.len() <= s.len() && s.take(lit.len() as int) == lit {
        Some(s.skip(lit.len() as int))
    } else {
        None
    }
}

/// Parsing an emitted literal consumes exactly it.
pub proof fn lemma_parse_lit_round(lit: Seq<char>, rest: Seq<char>)
    ensures
        parse_lit(lit + rest, lit) == Some(rest),
{
    assert((lit + rest).take(lit.len() as int) =~= lit);
    assert((lit + rest).skip(lit.len() as int) =~= rest);
}

/// Whether a string's length fits the 16-digit length prefix.
pub open spec fn fits_str(s: Seq<char>) -> bool {
    s.len() < 0x1_0000_0000_0000_0000
}

/// A boolean as one tag character and a space.
pub open spec fn emit_bool(b: bool) -> Seq<char> {
    if b {
        "1 "@
    } else {
        "0 "@
    }
}

/// Reads a boolean tag.
pub open spec fn parse_bool(s: Seq<char>) -> Option<(bool, Seq<char>)> {
    if s.len() >= 2 && s[1] == ' ' && (s[0] == '0' || s[0] == '1') {
        Some(((s[0] == '1'), s.skip(2)))
    } else {
        None
    }
}

pub proof fn lemma_parse_bool_round(b: bool, rest: Seq<char>)
    ensures
        parse_bool(emit_bool(b) + rest) == Some((b, rest)),
{
    reveal_strlit("0 ");
    reveal_strlit("1 ");
    assert((emit_bool(b) + rest).skip(2) =~= rest);
}

/// A container kind as a tag, with the free-form label spelled out.
pub open spec fn emit_ctype(ct: ContainerTypeView) -> Seq<char> {
    match ct {
        ContainerTypeView::WebApplication => "w "@,
        ContainerTypeView::MobileApp => "m "@,
        ContainerTypeView::Database => "d "@,
        ContainerTypeView::Microservice => "s "@,
        ContainerTypeView::Queue => "q "@,
        ContainerTypeView::Other(label) => "o "@ + emit_str(label),
    }
}

/// Reads a container kind.
pub open spec fn parse_ctype(s: Seq<char>) -> Option<(ContainerTypeView, Seq<char>)> {
    if s.len() >= 2 && s[1] == ' ' {
        if s[0] == 'w' {
            Some((ContainerTypeView::WebApplication, s.skip(2)))
        } else if s[0] == 'm' {
            Some((ContainerTypeView::MobileApp, s.skip(2)))
        } else if s[0] == 'd' {
            Some((ContainerTypeView::Database, s.skip(2)))
        } else if s[0] == 's' {
            Some((ContainerTypeView::Microservice, s.skip(2)))
        } else if s[0] == 'q' {
            Some((ContainerTypeView::Queue, s.skip(2)))
        } else if s[0] == 'o' {
            match parse_str(s.skip(2)) {
                Some((label, rest)) => Some((ContainerTypeView::Other(label), rest)),
                None => None,
            }
        } else {
            None
        }
    } else {
        None
    }
}

/// Whether a container kind's label fits the length prefix.
pub open spec fn bounded_ctype(ct: ContainerTypeView) -> bool {
    match ct {
        ContainerTypeView::Other(label) => fits_str(label),
        _ => true,
    }
}

pub proof fn lemma_parse_ctype_round(ct: ContainerTypeView, rest: Seq<char>)
    requires
        bounded_ctype(ct),
    ensures
        parse_ctype(emit_ctype(ct) + rest) == Some((ct, rest)),
{
    reveal_strlit("w ");
    reveal_strlit("m ");
    reveal_strlit("d ");
    reveal_strlit("s ");
    reveal_strlit("q ");
    reveal_strlit("o ");
    lemma_u64_fits();
    match ct {
        ContainerTypeView::Other(label) => {
            assert((emit_ctype(ct) + rest).skip(2) =~= emit_str(label) + rest);
            lemma_parse_str_round(label, rest);
        },
        _ => {
            assert((emit_ctype(ct) + rest).skip(2) =~= rest);
        },
    }
}

/// An element variant as a tag and its fields.
pub open spec fn emit_etype(et: ElementTypeView) -> Seq<char> {
    match et {
        ElementTypeView::Person { name, description, is_external } => "P "@ + emit_bool(
            is_external,
        ) + emit_str(name) + emit_str(description),
        ElementTypeView::SoftwareSystem { name, description, is_external } => "S "@ + emit_bool(
            is_external,
        ) + emit_str(name) + emit_str(description),
        ElementTypeView::Container { name, description, container_type, technology } => "C "@
            + emit_ctype(container_type) + emit_str(technology) + emit_str(name) + emit_str(
            description,
        ),
    }
}

/// Reads an element variant.
pub open spec fn parse_etype(s: Seq<char>) -> Option<(ElementTypeView, Seq<char>)> {
    if s.len() >= 2 && s[1] == ' ' {
        if s[0] == 'P' || s[0] == 'S' {
            match parse_bool(s.skip(2)) {
                Some((is_external, r1)) => match parse_str(r1) {
                    Some((name, r2)) => match parse_str(r2) {
                        Some((description, r3)) => Some(
                            (
                                if s[0] == 'P' {
                                    ElementTypeView::Person { name, description, is_external }
                                } else {
                                    ElementTypeView::SoftwareSystem {
                                        name,
                                        description,
                                        is_external,
                                    }
                                },
                                r3,
                            ),
                        ),
                        None => None,
                    },
                    None => None,
                },
                None => None,
            }
        } else if s[0] == 'C' {
            match parse_ctype(s.skip(2)) {
                Some((container_type, r1)) => match parse_str(r1) {
                    Some((technology, r2)) => match parse_str(r2) {
                        Some((name, r3)) => match parse_str(r3) {
                            Some((description, r4)) => Some(
                                (
                                    ElementTypeView::Container {
                                        name,
                                        description,
                                        container_type,
                                        technology,
                                    },
                                    r4,
                                ),
                            ),
                            None => None,
                        },
                        None => None,
                    },
                    None => None,
                },
                None => None,
            }
        } else {
            None
        }
    } else {
        None
    }
}

/// Whether a variant's strings fit the length prefix.
pub open spec fn bounded_etype(et: ElementTypeView) -> bool {
    match et {
        ElementTypeView::Person { name, description, .. } => fits_str(name) && fits_str(
            description,
        ),
        ElementTypeView::SoftwareSystem { name, description, .. } => fits_str(name) && fits_str(
            description,
        ),
        ElementTypeView::Container { name, description, container_type, technology } => fits_str(
            name,
        ) && fits_str(description) && bounded_ctype(container_type) && fits_str(technology),
    }
}

#[verifier::rlimit(60)]
pub proof fn lemma_parse_etype_round(et: ElementTypeView, rest: Seq<char>)
    requires
        bounded_etype(et),
    ensures
        parse_etype(emit_etype(et) + rest) == Some((et, rest)),
{
    reveal_strlit("P ");
    reveal_strlit("S ");
    reveal_strlit("C ");
    lemma_u64_fits();
    match et {
        ElementTypeView::Person { name, description, is_external } => {
            let t = emit_etype(et) + rest;
            assert(t.skip(2) =~= emit_bool(is_external) + (emit_str(name) + (emit_str(description)
                + rest)));
            lemma_parse_bool_round(is_external, emit_str(name) + (emit_str(description) + rest));
            lemma_parse_str_round(name, emit_str(description) + rest);
            lemma_parse_str_round(description, rest);
        },
        ElementTypeView::SoftwareSystem { name, description, is_external } => {
            let t = emit_etype(et) + rest;
            assert(t.skip(2) =~= emit_bool(is_external) + (emit_str(name) + (emit_str(description)
                + rest)));
            lemma_parse_bool_round(is_external, emit_str(name) + (emit_str(description) + rest));
            lemma_parse_str_round(name, emit_str(description) + rest);
            lemma_parse_str_round(description, rest);
        },
        ElementTypeView::Container { name, description, container_type, technology } => {
            let t = emit_etype(et) + rest;
            assert(t.skip(2) =~= emit_ctype(container_type) + (emit_str(technology) + (emit_str(
                name,
            ) + (emit_str(description) + rest))));
            lemma_parse_ctype_round(
                container_type,
                emit_str(technology) + (emit_str(name) + (emit_str(description) + rest)),
            );
            lemma_parse_str_round(technology, emit_str(name) + (emit_str(description) + rest));
            lemma_parse_str_round(name, emit_str(description) + rest);
            lemma_parse_str_round(description, rest);
        },
    }
}

/// One element: tag, identifier, geometry, variant.
pub open spec fn emit_element(e: ElementView) -> Seq<char> {
    "E "@ + emit_num(e.id.0 as nat, 32) + emit_i64(e.position.x as int) + emit_i64(
        e.position.y as int,
    ) + emit_i64(e.size.width as int) + emit_i64(e.size.height as int) + emit_etype(e.element_type)
}

/// Reads one element.
pub open spec fn parse_element(s: Seq<char>) -> Option<(ElementView, Seq<char>)> {
    if s.len() >= 2 && s[0] == 'E' && s[1] == ' ' {
        match parse_num(s.skip(2), 32) {
            Some((idv, r1)) => {
                if idv < 0x1_0000_0000_0000_0000_0000_0000_0000_0000 {
                    match parse_i64(r1) {
                        Some((px, r2)) => match parse_i64(r2) {
                            Some((py, r3)) => match parse_i64(r3) {
                                Some((w, r4)) => match parse_i64(r4) {
                                    Some((h, r5)) => match parse_etype(r5) {
                                        Some((et, r6)) => Some(
                                            (
                                                ElementView {
                                                    id: ElementId(idv as u128),
                                                    element_type: et,
                                                    position: Position {
                                                        x: px as i64,
                                                        y: py as i64,
                                                    },
                                                    size: Size {
                                                        width: w as i64,
                                                        height: h as i64,
                                                    },
                                                },
                                                r6,
                                            ),
                                        ),
                                        None => None,
                                    },
                                    None => None,
                                },
                                None => None,
                            },
                            None => None,
                        },
                        None => None,
                    }
                } else {
                    None
                }
            },
            None => None,
        }
    } else {
        None
    }
}

#[verifier::rlimit(80)]
pub proof fn lemma_parse_element_round(e: ElementView, rest: Seq<char>)
    requires
        bounded_etype(e.element_type),
    ensures
        parse_element(emit_element(e) + rest) == Some((e, rest)),
{
    reveal_strlit("E ");
    lemma_u128_fits();
    let t = emit_element(e) + rest;
    let tail1 = emit_i64(e.position.x as int) + (emit_i64(e.position.y as int) + (emit_i64(
        e.size.width as int,
    ) + (emit_i64(e.size.height as int) + (emit_etype(e.element_type) + rest))));
    assert(t.skip(2) =~= emit_num(e.id.0 as nat, 32) + tail1);
    lemma_parse_num_round(e.id.0 as nat, 32, tail1);
    lemma_parse_i64_round(
        e.position.x as int,
        emit_i64(e.position.y as int) + (emit_i64(e.size.width as int) + (emit_i64(
            e.size.height as int,
        ) + (emit_etype(e.element_type) + rest))),
    );
    lemma_parse_i64_round(
        e.position.y as int,
        emit_i64(e.size.width as int) + (emit_i64(e.size.height as int) + (emit_etype(
            e.element_type,
        ) + rest)),
    );
    lemma_parse_i64_round(
        e.size.width as int,
        emit_i64(e.size.height as int) + (emit_etype(e.element_type) + rest),
    );
    lemma_parse_i64_round(e.size.height as int, emit_etype(e.element_type) + rest);
    lemma_parse_etype_round(e.element_type, rest);
}

/// One relationship: tag, identifiers, description, optional technology.
pub open spec fn emit_rel(r: RelationshipView) -> Seq<char> {
    "R "@ + emit_num(r.id.0 as nat, 32) + emit_num(r.source_id.0 as nat, 32) + emit_num(
        r.target_id.0 as nat,
        32,
    ) + emit_str(r.description) + match r.technology {
        Some(t) => emit_bool(true) + emit_str(t),
        None => emit_bool(false),
    }
}

/// Reads one relationship.
pub open spec fn parse_rel(s: Seq<char>) -> Option<(RelationshipView, Seq<char>)> {
    if s.len() >= 2 && s[0] == 'R' && s[1] == ' ' {
        match parse_num(s.skip(2), 32) {
            Some((idv, r1)) => match parse_num(r1, 32) {
                Some((srcv, r2)) => match parse_num(r2, 32) {
                    Some((tgtv, r3)) => {
                        if idv < 0x1_0000_0000_0000_0000_0000_0000_0000_0000 && srcv
                            < 0x1_0000_0000_0000_0000_0000_0000_0000_0000 && tgtv
                            < 0x1_0000_0000_0000_0000_0000_0000_0000_0000 {
                            match parse_str(r3) {
                                Some((description, r4)) => match parse_bool(r4) {
                                    Some((has_tech, r5)) => {
                                        if has_tech {
                                            match parse_str(r5) {
                                                Some((t, r6)) => Some(
                                                    (
                                                        RelationshipView {
                                                            id: ElementId(idv as u128),
                                                            source_id: ElementId(srcv as u128),
                                                            target_id: ElementId(tgtv as u128),
                                                            description,
                                                            technology: Some(t),
                                                        },
                                                        r6,
                                                    ),
                                                ),
                                                None => None,
                                            }
                                        } else {
                                            Some(
                                                (
                                                    RelationshipView {
                                                        id: ElementId(idv as u128),
                                                        source_id: ElementId(srcv as u128),
                                                        target_id: ElementId(tgtv as u128),
                                                        description,
                                                        technology: None,
                                                    },
                                                    r5,
                                                ),
                                            )
                                        }
                                    },
                                    None => None,
                                },
                                None => None,
                            }
                        } else {
                            None
                        }
                    },
                    None => None,
                },
                None => None,
            },
            None => None,
        }
    } else {
        None
    }
}

/// Whether a relationship's strings fit the length prefix.
pub open spec fn bounded_rel(r: RelationshipView) -> bool {
    fits_str(r.description) && match r.technology {
        Some(t) => fits_str(t),
        None => true,
    }
}

pub proof fn lemma_parse_rel_round(r: RelationshipView, rest: Seq<char>)
    requires
        bounded_rel(r),
    ensures
        parse_rel(emit_rel(r) + rest) == Some((r, rest)),
{
    reveal_strlit("R ");
    lemma_u64_fits();
    lemma_u128_fits();
    let t = emit_rel(r) + rest;
    let opt = match r.technology {
        Some(tech) => emit_bool(true) + emit_str(tech),
        None => emit_bool(false),
    };
    assert(t.skip(2) =~= emit_num(r.id.0 as nat, 32) + (emit_num(r.source_id.0 as nat, 32)
        + (emit_num(r.target_id.0 as nat, 32) + (emit_str(r.description) + (opt + rest)))));
    lemma_parse_num_round(
        r.id.0 as nat,
        32,
        emit_num(r.source_id.0 as nat, 32) + (emit_num(r.target_id.0 as nat, 32) + (emit_str(
            r.description,
        ) + (opt + rest))),
    );
    lemma_parse_num_round(
        r.source_id.0 as nat,
        32,
        emit_num(r.target_id.0 as nat, 32) + (emit_str(r.description) + (opt + rest)),
    );
    lemma_parse_num_round(r.target_id.0 as nat, 32, emit_str(r.description) + (opt + rest));
    lemma_parse_str_round(r.description, opt + rest);
    match r.technology {
        Some(tech) => {
            assert(opt + rest =~= emit_bool(true) + (emit_str(tech) + rest));
            lemma_parse_bool_round(true, emit_str(tech) + rest);
            lemma_parse_str_round(tech, rest);
        },
        None => {
            assert(opt + rest =~= emit_bool(false) + rest);
            lemma_parse_bool_round(false, rest);
        },
    }
}

/// All elements in order, each emitted in full.
pub open spec fn emit_elements(l: Seq<ElementView>) -> Seq<char>
    decreases l.len(),
{
    if l.len() == 0 {
        Seq::empty()
    } else {
        emit_element(l.first()) + emit_elements(l.drop_first())
    }
}

/// Reads exactly `n` elements.
pub open spec fn parse_elements(s: Seq<char>, n: nat) -> Option<(Seq<ElementView>, Seq<char>)>
    decreases n,
{
    if n == 0 {
        Some((Seq::empty(), s))
    } else {
        match parse_element(s) {
            Some((e, r1)) => match parse_elements(r1, (n - 1) as nat) {
                Some((l, r2)) => Some((seq![e] + l, r2)),
                None => None,
            },
            None => None,
        }
    }
}

/// All relationships in order, each emitted in full.
pub open spec fn emit_rels(l: Seq<RelationshipView>) -> Seq<char>
    decreases l.len(),
{
    if l.len() == 0 {
        Seq::empty()
    } else {
        emit_rel(l.first()) + emit_rels(l.drop_first())
    }
}

/// Reads exactly `n` relationships.
pub open spec fn parse_rels(s: Seq<char>, n: nat) -> Option<(Seq<RelationshipView>, Seq<char>)>
    decreases n,
{
    if n == 0 {
        Some((Seq::empty(), s))
    } else {
        match parse_rel(s) {
            Some((r, r1)) => match parse_rels(r1, (n - 1) as nat) {
                Some((l, r2)) => Some((seq![r] + l, r2)),
                None => None,
            },
            None => None,
        }
    }
}

#[verifier::rlimit(60)]
pub proof fn lemma_parse_elements_round(l: Seq<ElementView>, rest: Seq<char>)
    requires
        forall|i: int| 0 <= i < l.len() ==> bounded_etype((#[trigger] l[i]).element_type),
    ensures
        parse_elements(emit_elements(l) + rest, l.len()) == Some((l, rest)),
    decreases l.len(),
{
    if l.len() == 0 {
        assert(emit_elements(l) + rest =~= rest);
        assert(Seq::<ElementView>::empty() =~= l);
    } else {
        assert(emit_elements(l) + rest =~= emit_element(l.first()) + (emit_elements(l.drop_first())
            + rest));
        lemma_parse_element_round(l.first(), emit_elements(l.drop_first()) + rest);
        assert(forall|i: int|
            0 <= i < l.drop_first().len() ==> bounded_etype(
                (#[trigger] l.drop_first()[i]).element_type,
            ));
        lemma_parse_elements_round(l.drop_first(), rest);
        assert(seq![l.first()] + l.drop_first() =~= l);
    }
}

#[verifier::rlimit(60)]
pub proof fn lemma_parse_rels_round(l: Seq<RelationshipView>, rest: Seq<char>)
    requires
        forall|i: int| 0 <= i < l.len() ==> bounded_rel(#[trigger] l[i]),
    ensures
        parse_rels(emit_rels(l) + rest, l.len()) == Some((l, rest)),
    decreases l.len(),
{
    if l.len() == 0 {
        assert(emit_rels(l) + rest =~= rest);
        assert(Seq::<RelationshipView>::empty() =~= l);
    } else {
        assert(emit_rels(l) + rest =~= emit_rel(l.first()) + (emit_rels(l.drop_first()) + rest));
        lemma_parse_rel_round(l.first(), emit_rels(l.drop_first()) + rest);
        assert(forall|i: int| 0 <= i < l.drop_first().len() ==> bounded_rel(#[trigger] l.drop_first()[i]));
        lemma_parse_rels_round(l.drop_first(), rest);
        assert(seq![l.first()] + l.drop_first() =~= l);
    }
}

/// A diagram type as one tag.
pub open spec fn emit_dtype(t: DiagramType) -> Seq<char> {
    match t {
        DiagramType::SystemContext => "X "@,
        DiagramType::Container => "N "@,
    }
}

/// Reads a diagram type.
pub open spec fn parse_dtype(s: Seq<char>) -> Option<(DiagramType, Seq<char>)> {
    if s.len() >= 2 && s[1] == ' ' {
        if s[0] == 'X' {
            Some((DiagramType::SystemContext, s.skip(2)))
        } else if s[0] == 'N' {
            Some((DiagramType::Container, s.skip(2)))
        } else {
            None
        }
    } else {
        None
    }
}

pub proof fn lemma_parse_dtype_round(t: DiagramType, rest: Seq<char>)
    ensures
        parse_dtype(emit_dtype(t) + rest) == Some((t, rest)),
{
    reveal_strlit("X ");
    reveal_strlit("N ");
    assert((emit_dtype(t) + rest).skip(2) =~= rest);
}

/// A version tag the loader recognizes; anything else is restored to the
/// current version.
pub open spec fn normalize_version(v: Seq<char>) -> Seq<char> {
    if v == "1.0"@ {
        v
    } else {
        "1.0"@
    }
}

/// The complete serialized form of a diagram.
pub open spec fn emit_diagram(d: DiagramView) -> Seq<char> {
    "c4d "@ + emit_str(d.version) + emit_str(d.name) + emit_str(d.description) + emit_dtype(
        d.diagram_type,
    ) + emit_num(d.elements.len(), 16) + emit_elements(d.elements) + emit_num(
        d.relationships.len(),
        16,
    ) + emit_rels(d.relationships)
}

/// Reads a complete diagram, normalizing the version tag.
pub open spec fn parse_diagram(s: Seq<char>) -> Option<(DiagramView, Seq<char>)> {
    match parse_lit(s, "c4d "@) {
        Some(r0) => match parse_str(r0) {
            Some((version, r1)) => match parse_str(r1) {
                Some((name, r2)) => match parse_str(r2) {
                    Some((description, r3)) => match parse_dtype(r3) {
                        Some((diagram_type, r4)) => match parse_num(r4, 16) {
                            Some((ne, r5)) => match parse_elements(r5, ne) {
                                Some((elements, r6)) => match parse_num(r6, 16) {
                                    Some((nr, r7)) => match parse_rels(r7, nr) {
                                        Some((relationships, r8)) => Some(
                                            (
                                                DiagramView {
                                                    version: normalize_version(version),
                                                    name,
                                                    description,
                                                    diagram_type,
                                                    elements,
                                                    relationships,
                                                },
                                                r8,
                                            ),
                                        ),
                                        None => None,
                                    },
                                    None => None,
                                },
                                None => None,
                            },
                            None => None,
                        },
                        None => None,
                    },
                    None => None,
                },
                None => None,
            },
            None => None,
        },
        None => None,
    }
}

/// Whether every string and count in the diagram fits its fixed-width
/// prefix; true of any diagram that exists in memory.
pub open spec fn bounded_diagram(d: DiagramView) -> bool {
    &&& fits_str(d.version)
    &&& fits_str(d.name)
    &&& fits_str(d.description)
    &&& d.elements.len() < 0x1_0000_0000_0000_0000
    &&& d.relationships.len() < 0x1_0000_0000_0000_0000
    &&& forall|i: int| 0 <= i < d.elements.len() ==> bounded_etype((#[trigger] d.elements[i]).element_type)
    &&& forall|i: int| 0 <= i < d.relationships.len() ==> bounded_rel(#[trigger] d.relationships[i])
}

/// What loading a serialized text yields: the parsed diagram, provided the
/// whole input is consumed and referential integrity holds.
pub open spec fn spec_from_text(s: Seq<char>) -> Option<DiagramView> {
    match parse_diagram(s) {
        Some((d, rest)) => {
            if rest.len() == 0 && wf_view(d) {
                Some(d)
            } else {
                None
            }
        },
        None => None,
    }
}

/// Law: loading a saved diagram restores it exactly, but for the version
/// tag, which the loader normalizes to a recognized one. In particular the
/// name, description, diagram type, elements and relationships all
/// round-trip.
#[verifier::rlimit(80)]
pub proof fn lemma_round_trip(d: DiagramView)
    requires
        wf_view(d),
        bounded_diagram(d),
    ensures
        spec_from_text(emit_diagram(d)) == Some(
            DiagramView { version: normalize_version(d.version), ..d },
        ),
{
    reveal_strlit("c4d ");
    lemma_u64_fits();
    let hdr = "c4d "@;
    let t1 = emit_str(d.version) + (emit_str(d.name) + (emit_str(d.description) + (emit_dtype(
        d.diagram_type,
    ) + (emit_num(d.elements.len(), 16) + (emit_elements(d.elements) + (emit_num(
        d.relationships.len(),
        16,
    ) + emit_rels(d.relationships)))))));
    assert(emit_diagram(d) =~= hdr + t1);
    lemma_parse_lit_round(hdr, t1);
    assert(parse_lit(emit_diagram(d), hdr) == Some(t1));
    lemma_parse_str_round(
        d.version,
        emit_str(d.name) + (emit_str(d.description) + (emit_dtype(d.diagram_type) + (emit_num(
            d.elements.len(),
            16,
        ) + (emit_elements(d.elements) + (emit_num(d.relationships.len(), 16) + emit_rels(
            d.relationships,
        )))))),
    );
    lemma_parse_str_round(
        d.name,
        emit_str(d.description) + (emit_dtype(d.diagram_type) + (emit_num(d.elements.len(), 16) + (
        emit_elements(d.elements) + (emit_num(d.relationships.len(), 16) + emit_rels(
            d.relationships,
        ))))),
    );
    lemma_parse_str_round(
        d.description,
        emit_dtype(d.diagram_type) + (emit_num(d.elements.len(), 16) + (emit_elements(d.elements)
            + (emit_num(d.relationships.len(), 16) + emit_rels(d.relationships)))),
    );
    lemma_parse_dtype_round(
        d.diagram_type,
        emit_num(d.elements.len(), 16) + (emit_elements(d.elements) + (emit_num(
            d.relationships.len(),
            16,
        ) + emit_rels(d.relationships))),
    );
    lemma_parse_num_round(
        d.elements.len(),
        16,
        emit_elements(d.elements) + (emit_num(d.relationships.len(), 16) + emit_rels(
            d.relationships,
        )),
    );
    lemma_parse_elements_round(
        d.elements,
        emit_num(d.relationships.len(), 16) + emit_rels(d.relationships),
    );
    lemma_parse_num_round(d.relationships.len(), 16, emit_rels(d.relationships));
    lemma_parse_rels_round(d.relationships, Seq::<char>::empty());
    assert(emit_rels(d.relationships) + Seq::<char>::empty() =~= emit_rels(d.relationships));
    assert(wf_view(DiagramView { version: normalize_version(d.version), ..d })) by {
        assert((DiagramView { version: normalize_version(d.version), ..d }).elements
            == d.elements);
    }
}

/// Loading a persisted diagram failed: the text is not a diagram this
/// library wrote, or it names elements that are not present.
#[derive(Clone, Copy, PartialEq, Eq, Structural, Debug)]
pub struct ParseError;

/// Appending one element extends the emitted element section.
proof fn lemma_emit_elements_push(l: Seq<ElementView>, e: ElementView)
    ensures
        emit_elements(l.push(e)) == emit_elements(l) + emit_element(e),
    decreases l.len(),
{
    if l.len() == 0 {
        assert(l.push(e).first() == e);
        assert(l.push(e).drop_first() =~= Seq::<ElementView>::empty());
        assert(emit_elements(Seq::<ElementView>::empty()) == Seq::<char>::empty());
        assert(emit_elements(l.push(e)) == emit_element(e) + Seq::<char>::empty());
        assert(emit_element(e) + Seq::<char>::empty() =~= emit_element(e));
        assert(emit_elements(l) + emit_element(e) =~= emit_element(e));
    } else {
        assert(l.push(e).drop_first() =~= l.drop_first().push(e));
        lemma_emit_elements_push(l.drop_first(), e);
        assert(emit_elements(l.push(e)) =~= emit_elements(l) + emit_element(e));
    }
}

/// Appending one relationship extends the emitted relationship section.
proof fn lemma_emit_rels_push(l: Seq<RelationshipView>, r: RelationshipView)
    ensures
        emit_rels(l.push(r)) == emit_rels(l) + emit_rel(r),
    decreases l.len(),
{
    if l.len() == 0 {
        assert(l.push(r).first() == r);
        assert(l.push(r).drop_first() =~= Seq::<RelationshipView>::empty());
        assert(emit_rels(Seq::<RelationshipView>::empty()) == Seq::<char>::empty());
        assert(emit_rels(l.push(r)) == emit_rel(r) + Seq::<char>::empty());
        assert(emit_rel(r) + Seq::<char>::empty() =~= emit_rel(r));
        assert(emit_rels(l) + emit_rel(r) =~= emit_rel(r));
    } else {
        assert(l.push(r).drop_first() =~= l.drop_first().push(r));
        lemma_emit_rels_push(l.drop_first(), r);
        assert(emit_rels(l.push(r)) =~= emit_rels(l) + emit_rel(r));
    }
}

fn hex_digit_char(d: u128) -> (c: char)
    requires
        d < 16,
    ensures
        c == hex_digit(d as nat),
{
    if d == 0 {
        '0'
    } else if d == 1 {
        '1'
    } else if d == 2 {
        '2'
    } else if d == 3 {
        '3'
    } else if d == 4 {
        '4'
    } else if d == 5 {
        '5'
    } else if d == 6 {
        '6'
    } else if d == 7 {
        '7'
    } else if d == 8 {
        '8'
    } else if d == 9 {
        '9'
    } else if d == 10 {
        'a'
    } else if d == 11 {
        'b'
    } else if d == 12 {
        'c'
    } else if d == 13 {
        'd'
    } else if d == 14 {
        'e'
    } else {
        'f'
    }
}

proof fn lemma_hex_le_len2(v: nat, n: nat)
    ensures
        hex_le(v, n).len() == n,
    decreases n,
{
    if n > 0 {
        lemma_hex_le_len2(v / 16, (n - 1) as nat);
    }
}

/// Appends a number as `width` hex digits and a trailing space.
fn push_num(out: &mut String, v: u128, width: usize)
    ensures
        final(out)@ == old(out)@ + emit_num(v as nat, width as nat),
{
    let ghost orig: nat = v as nat;
    let mut v = v;
    let mut le: Vec<char> = Vec::new();
    let mut i: usize = 0;
    while i < width
        invariant
            0 <= i <= width,
            le@.len() == i,
            le@ + hex_le(v as nat, (width - i) as nat) == hex_le(orig, width as nat),
        decreases width - i,
    {
        let d = v % 16;
        le.push(hex_digit_char(d));
        proof {
            assert(hex_le(v as nat, (width - i) as nat) == seq![hex_digit(v as nat % 16)] + hex_le(
                v as nat / 16,
                (width - i - 1) as nat,
            ));
            assert(le@ + hex_le(v as nat / 16, (width - i - 1) as nat) =~= hex_le(
                orig,
                width as nat,
            ));
        }
        v = v / 16;
        i = i + 1;
    }
    proof {
        assert(le@ =~= hex_le(orig, width as nat));
        lemma_hex_le_len2(orig, width as nat);
    }
    let ghost pre = out@;
    let mut j: usize = 0;
    while j < width
        invariant
            0 <= j <= width,
            le@ == hex_le(orig, width as nat),
            le@.len() == width,
            out@.len() == pre.len() + j,
            out@ == pre + hex_le(orig, width as nat).reverse().take(j as int),
        decreases width - j,
    {
        push_char(out, le[width - 1 - j]);
        proof {
            assert(hex_le(orig, width as nat).reverse()[j as int] == le@[width - 1 - j]);
            assert(out@ =~= pre + hex_le(orig, width as nat).reverse().take(j as int + 1));
        }
        j = j + 1;
    }
    push_char(out, ' ');
    proof {
        assert(hex_le(orig, width as nat).reverse().take(width as int) =~= hex_le(
            orig,
            width as nat,
        ).reverse());
        reveal_strlit(" ");
        assert(out@ =~= pre + emit_num(orig, width as nat));
    }
}

/// Appends a length-prefixed string field.
fn push_str_field(out: &mut String, s: &str)
    ensures
        final(out)@ == old(out)@ + emit_str(s@),
{
    let ghost pre = out@;
    let n = s.unicode_len();
    push_num(out, n as u128, 16);
    out.append(s);
    push_char(out, ' ');
    proof {
        reveal_strlit(" ");
        assert(out@ =~= pre + emit_str(s@));
    }
}

/// Appends a signed number with an explicit sign.
fn push_i64(out: &mut String, x: i64)
    ensures
        final(out)@ == old(out)@ + emit_i64(x as int),
{
    let ghost pre = out@;
    if x < 0 {
        push_char(out, '-');
        let mag: u64 = (-(x as i128)) as u64;
        push_num(out, mag as u128, 16);
        proof {
            assert(out@ =~= pre + emit_i64(x as int));
        }
    } else {
        push_char(out, '+');
        push_num(out, x as u128, 16);
        proof {
            assert(out@ =~= pre + emit_i64(x as int));
        }
    }
}

/// Appends a boolean tag.
fn push_bool(out: &mut String, b: bool)
    ensures
        final(out)@ == old(out)@ + emit_bool(b),
{
    if b {
        out.append("1 ");
    } else {
        out.append("0 ");
    }
}

/// Appends a container kind.
fn push_ctype(out: &mut String, ct: &ContainerType)
    ensures
        final(out)@ == old(out)@ + emit_ctype(ct@),
{
    let ghost pre = out@;
    match ct {
        ContainerType::WebApplication => out.append("w "),
        ContainerType::MobileApp => out.append("m "),
        ContainerType::Database => out.append("d "),
        ContainerType::Microservice => out.append("s "),
        ContainerType::Queue => out.append("q "),
        ContainerType::Other(label) => {
            out.append("o ");
            push_str_field(out, label.as_str());
            proof {
                assert(out@ =~= pre + emit_ctype(ct@));
            }
        },
    }
}

/// Appends an element variant.
fn push_etype(out: &mut String, et: &ElementType)
    ensures
        final(out)@ == old(out)@ + emit_etype(et@),
{
    let ghost pre = out@;
    match et {
        ElementType::Person(d) => {
            out.append("P ");
            push_bool(out, d.is_external);
            push_str_field(out, d.name.as_str());
            push_str_field(out, d.description.as_str());
        },
        ElementType::SoftwareSystem(d) => {
            out.append("S ");
            push_bool(out, d.is_external);
            push_str_field(out, d.name.as_str());
            push_str_field(out, d.description.as_str());
        },
        ElementType::Container(d) => {
            out.append("C ");
            push_ctype(out, &d.container_type);
            push_str_field(out, d.technology.as_str());
            push_str_field(out, d.name.as_str());
            push_str_field(out, d.description.as_str());
        },
    }
    proof {
        assert(out@ =~= pre + emit_etype(et@));
    }
}

/// Appends one element.
fn push_element(out: &mut String, e: &Element)
    ensures
        final(out)@ == old(out)@ + emit_element(e@),
{
    let ghost pre = out@;
    out.append("E ");
    push_num(out, e.id.0, 32);
    push_i64(out, e.position.x);
    push_i64(out, e.position.y);
    push_i64(out, e.size.width);
    push_i64(out, e.size.height);
    push_etype(out, &e.element_type);
    proof {
        assert(out@ =~= pre + emit_element(e@));
    }
}

/// Appends one relationship.
fn push_rel(out: &mut String, r: &Relationship)
    ensures
        final(out)@ == old(out)@ + emit_rel(r@),
{
    let ghost pre = out@;
    out.append("R ");
    push_num(out, r.id.0, 32);
    push_num(out, r.source_id.0, 32);
    push_num(out, r.target_id.0, 32);
    push_str_field(out, r.description.as_str());
    match &r.technology {
        Some(t) => {
            push_bool(out, true);
            push_str_field(out, t.as_str());
        },
        None => {
            push_bool(out, false);
        },
    }
    proof {
        assert(out@ =~= pre + emit_rel(r@));
    }
}

impl Diagram {
    /// The diagram serialized as versioned text; `from_text` restores it.
    pub fn to_text(&self) -> (r: String)
        ensures
            r@ == emit_diagram(self@),
    {
        let mut out = String::new();
        out.append("c4d ");
        push_str_field(&mut out, self.version.as_str());
        push_str_field(&mut out, self.name.as_str());
        push_str_field(&mut out, self.description.as_str());
        match self.diagram_type {
            DiagramType::SystemContext => out.append("X "),
            DiagramType::Container => out.append("N "),
        }
        push_num(&mut out, self.elements.len() as u128, 16);
        let ghost ev = elem_views(self.elements@);
        let ghost pre_elems = out@;
        let n = self.elements.len();
        let mut i: usize = 0;
        while i < n
            invariant
                0 <= i <= n,
                n == self.elements@.len(),
                ev == elem_views(self.elements@),
                out@ == pre_elems + emit_elements(ev.take(i as int)),
            decreases n - i,
        {
            push_element(&mut out, &self.elements[i]);
            proof {
                assert(ev[i as int] == self.elements@[i as int]@);
                assert(ev.take(i as int + 1) =~= ev.take(i as int).push(ev[i as int]));
                lemma_emit_elements_push(ev.take(i as int), ev[i as int]);
                assert(out@ =~= pre_elems + emit_elements(ev.take(i as int + 1)));
            }
            i = i + 1;
        }
        proof {
            assert(ev.take(ev.len() as int) =~= ev);
        }
        push_num(&mut out, self.relationships.len() as u128, 16);
        let ghost rv = rel_views(self.relationships@);
        let ghost pre_rels = out@;
        let m = self.relationships.len();
        let mut k: usize = 0;
        while k < m
            invariant
                0 <= k <= m,
                m == self.relationships@.len(),
                rv == rel_views(self.relationships@),
                out@ == pre_rels + emit_rels(rv.take(k as int)),
            decreases m - k,
        {
            push_rel(&mut out, &self.relationships[k]);
            proof {
                assert(rv[k as int] == self.relationships@[k as int]@);
                assert(rv.take(k as int + 1) =~= rv.take(k as int).push(rv[k as int]));
                lemma_emit_rels_push(rv.take(k as int), rv[k as int]);
                assert(out@ =~= pre_rels + emit_rels(rv.take(k as int + 1)));
            }
            k = k + 1;
        }
        proof {
            assert(rv.take(rv.len() as int) =~= rv);
            reveal_strlit("c4d ");
            reveal_strlit("X ");
            reveal_strlit("N ");
            assert(out@ =~= emit_diagram(self@));
        }
        out
    }
}

/// A failed fixed-width read stays failed for any longer width.
proof fn lemma_parse_digits_none_mono(s: Seq<char>, m: nat, n: nat)
    requires
        m <= n,
        parse_digits(s, m) is None,
    ensures
        parse_digits(s, n) is None,
    decreases n,
{
    if n > m {
        lemma_parse_digits_none_mono(s, m, (n - 1) as nat);
    }
}

fn hex_val_exec(c: char) -> (r: Option<u8>)
    ensures
        match r {
            Some(d) => hex_val(c) == Some(d as nat) && d < 16,
            None => hex_val(c) is None,
        },
{
    if c == '0' {
        Some(0)
    } else if c == '1' {
        Some(1)
    } else if c == '2' {
        Some(2)
    } else if c == '3' {
        Some(3)
    } else if c == '4' {
        Some(4)
    } else if c == '5' {
        Some(5)
    } else if c == '6' {
        Some(6)
    } else if c == '7' {
        Some(7)
    } else if c == '8' {
        Some(8)
    } else if c == '9' {
        Some(9)
    } else if c == 'a' {
        Some(10)
    } else if c == 'b' {
        Some(11)
    } else if c == 'c' {
        Some(12)
    } else if c == 'd' {
        Some(13)
    } else if c == 'e' {
        Some(14)
    } else if c == 'f' {
        Some(15)
    } else {
        None
    }
}

proof fn lemma_pow16_mono(a: nat, b: nat)
    requires
        a <= b,
    ensures
        pow16(a) <= pow16(b),
    decreases b,
{
    if a < b {
        lemma_pow16_mono(a, (b - 1) as nat);
        assert(pow16(b) == 16 * pow16((b - 1) as nat));
        assert(pow16((b - 1) as nat) <= 16 * pow16((b - 1) as nat)) by (nonlinear_arith)
            requires
                pow16((b - 1) as nat) >= 0,
        ;
    }
}

/// Reads `width` hex digits starting at `i`.
fn p_digits(s: &Vec<char>, i: usize, width: usize) -> (r: Option<(u128, usize)>)
    requires
        i <= s@.len(),
        width <= 32,
    ensures
        match r {
            Some(p) => i <= p.1 <= s@.len() && parse_digits(s@.skip(i as int), width as nat)
                == Some(((p.0 as nat), s@.skip(p.1 as int))) && (p.0 as nat) < pow16(width as nat),
            None => parse_digits(s@.skip(i as int), width as nat) is None,
        },
{
    let mut acc: u128 = 0;
    let mut k: usize = 0;
    while k < width
        invariant
            0 <= k <= width <= 32,
            i <= s@.len(),
            i + k <= s@.len(),
            parse_digits(s@.skip(i as int), k as nat) == Some(
                ((acc as nat), s@.skip(i as int + k as int)),
            ),
            (acc as nat) < pow16(k as nat),
        decreases width - k,
    {
        proof {
            lemma_u128_fits();
            lemma_pow16_mono((k + 1) as nat, 32);
        }
        if s.len() - i == k {
            proof {
                assert(s@.skip(i as int + k as int).len() == 0);
                lemma_parse_digits_none_mono(s@.skip(i as int), (k + 1) as nat, width as nat);
            }
            return None;
        }
        let c = s[i + k];
        proof {
            assert(s@.skip(i as int + k as int)[0] == s@[i as int + k as int]);
        }
        match hex_val_exec(c) {
            Some(d) => {
                proof {
                    assert((acc as nat) * 16 + (d as nat) < 16 * pow16(k as nat))
                        by (nonlinear_arith)
                        requires
                            (acc as nat) < pow16(k as nat),
                            (d as nat) < 16,
                    ;
                    assert(s@.skip(i as int + k as int).drop_first() =~= s@.skip(
                        i as int + k as int + 1,
                    ));
                }
                acc = acc * 16 + (d as u128);
            },
            None => {
                proof {
                    lemma_parse_digits_none_mono(s@.skip(i as int), (k + 1) as nat, width as nat);
                }
                return None;
            },
        }
        k = k + 1;
    }
    let len = s.len();
    proof {
        assert(i + width <= len);
    }
    Some((acc, i + width))
}

/// Reads a `width`-digit number and its trailing space starting at `i`.
fn p_num(s: &Vec<char>, i: usize, width: usize) -> (r: Option<(u128, usize)>)
    requires
        i <= s@.len(),
        width <= 32,
    ensures
        match r {
            Some(p) => i <= p.1 <= s@.len() && parse_num(s@.skip(i as int), width as nat) == Some(
                ((p.0 as nat), s@.skip(p.1 as int)),
            ) && (p.0 as nat) < pow16(width as nat),
            None => parse_num(s@.skip(i as int), width as nat) is None,
        },
{
    match p_digits(s, i, width) {
        Some((v, j)) => {
            if j < s.len() {
                let c = s[j];
                proof {
                    assert(s@.skip(j as int)[0] == s@[j as int]);
                    assert(s@.skip(j as int).drop_first() =~= s@.skip(j as int + 1));
                }
                if c == ' ' {
                    Some((v, j + 1))
                } else {
                    None
                }
            } else {
                proof {
                    assert(s@.skip(j as int).len() == 0);
                }
                None
            }
        },
        None => None,
    }
}

/// Reads a signed number starting at `i`.
fn p_i64(s: &Vec<char>, i: usize) -> (r: Option<(i64, usize)>)
    requires
        i <= s@.len(),
    ensures
        match r {
            Some(p) => i <= p.1 <= s@.len() && parse_i64(s@.skip(i as int)) == Some(
                ((p.0 as int), s@.skip(p.1 as int)),
            ),
            None => parse_i64(s@.skip(i as int)) is None,
        },
{
    if i == s.len() {
        proof {
            assert(s@.skip(i as int).len() == 0);
        }
        return None;
    }
    let c = s[i];
    proof {
        assert(s@.skip(i as int)[0] == s@[i as int]);
        assert(s@.skip(i as int).drop_first() =~= s@.skip(i as int + 1));
    }
    if c == '-' {
        match p_num(s, i + 1, 16) {
            Some((v, j)) => {
                if v <= 0x8000_0000_0000_0000u128 {
                    let x: i64 = if v == 0x8000_0000_0000_0000u128 {
                        i64::MIN
                    } else {
                        -((v as u64) as i64)
                    };
                    Some((x, j))
                } else {
                    None
                }
            },
            None => None,
        }
    } else if c == '+' {
        match p_num(s, i + 1, 16) {
            Some((v, j)) => {
                if v <= 0x7fff_ffff_ffff_ffffu128 {
                    Some(((v as u64) as i64, j))
                } else {
                    None
                }
            },
            None => None,
        }
    } else {
        None
    }
}

/// Reads a length-prefixed string starting at `i`.
fn p_str(s: &Vec<char>, i: usize) -> (r: Option<(String, usize)>)
    requires
        i <= s@.len(),
    ensures
        match r {
            Some(p) => i <= p.1 <= s@.len() && parse_str(s@.skip(i as int)) == Some(
                (p.0@, s@.skip(p.1 as int)),
            ),
            None => parse_str(s@.skip(i as int)) is None,
        },
{
    match p_num(s, i, 16) {
        Some((n128, j)) => {
            let remaining = s.len() - j;
            if n128 < remaining as u128 {
                let nn = n128 as usize;
                proof {
                    assert(s@.skip(j as int).len() >= nn + 1);
                }
                let c = s[j + nn];
                proof {
                    assert(s@.skip(j as int)[nn as int] == s@[j as int + nn as int]);
                }
                if c == ' ' {
                    let mut out = String::new();
                    let mut t: usize = 0;
                    while t < nn
                        invariant
                            0 <= t <= nn,
                            j + nn < s@.len() <= usize::MAX,
                            out@ == s@.skip(j as int).take(t as int),
                        decreases nn - t,
                    {
                        push_char(&mut out, s[j + t]);
                        proof {
                            assert(s@.skip(j as int)[t as int] == s@[j as int + t as int]);
                            assert(out@ =~= s@.skip(j as int).take(t as int + 1));
                        }
                        t = t + 1;
                    }
                    proof {
                        assert(s@.skip(j as int).skip(nn as int + 1) =~= s@.skip(
                            j as int + nn as int + 1,
                        ));
                    }
                    Some((out, j + nn + 1))
                } else {
                    None
                }
            } else {
                proof {
                    assert(s@.skip(j as int).len() == s@.len() - j);
                }
                None
            }
        },
        None => None,
    }
}

/// Reads a boolean tag starting at `i`.
fn p_bool(s: &Vec<char>, i: usize) -> (r: Option<(bool, usize)>)
    requires
        i <= s@.len(),
    ensures
        match r {
            Some(p) => i <= p.1 <= s@.len() && parse_bool(s@.skip(i as int)) == Some(
                (p.0, s@.skip(p.1 as int)),
            ),
            None => parse_bool(s@.skip(i as int)) is None,
        },
{
    if s.len() - i >= 2 {
        let c0 = s[i];
        let c1 = s[i + 1];
        proof {
            assert(s@.skip(i as int)[0] == s@[i as int]);
            assert(s@.skip(i as int)[1] == s@[i as int + 1]);
            assert(s@.skip(i as int).skip(2) =~= s@.skip(i as int + 2));
        }
        if c1 == ' ' && (c0 == '0' || c0 == '1') {
            Some((c0 == '1', i + 2))
        } else {
            None
        }
    } else {
        None
    }
}

/// Reads a diagram type tag starting at `i`.
fn p_dtype(s: &Vec<char>, i: usize) -> (r: Option<(DiagramType, usize)>)
    requires
        i <= s@.len(),
    ensures
        match r {
            Some(p) => i <= p.1 <= s@.len() && parse_dtype(s@.skip(i as int)) == Some(
                (p.0, s@.skip(p.1 as int)),
            ),
            None => parse_dtype(s@.skip(i as int)) is None,
        },
{
    if s.len() - i >= 2 {
        let c0 = s[i];
        let c1 = s[i + 1];
        proof {
            assert(s@.skip(i as int)[0] == s@[i as int]);
            assert(s@.skip(i as int)[1] == s@[i as int + 1]);
            assert(s@.skip(i as int).skip(2) =~= s@.skip(i as int + 2));
        }
        if c1 == ' ' && c0 == 'X' {
            Some((DiagramType::SystemContext, i + 2))
        } else if c1 == ' ' && c0 == 'N' {
            Some((DiagramType::Container, i + 2))
        } else {
            None
        }
    } else {
        None
    }
}

/// Reads a container kind starting at `i`.
fn p_ctype(s: &Vec<char>, i: usize) -> (r: Option<(ContainerType, usize)>)
    requires
        i <= s@.len(),
    ensures
        match r {
            Some(p) => i <= p.1 <= s@.len() && parse_ctype(s@.skip(i as int)) == Some(
                (p.0@, s@.skip(p.1 as int)),
            ),
            None => parse_ctype(s@.skip(i as int)) is None,
        },
{
    if s.len() - i >= 2 {
        let c0 = s[i];
        let c1 = s[i + 1];
        proof {
            assert(s@.skip(i as int)[0] == s@[i as int]);
            assert(s@.skip(i as int)[1] == s@[i as int + 1]);
            assert(s@.skip(i as int).skip(2) =~= s@.skip(i as int + 2));
        }
        if !(c1 == ' ') {
            return None;
        }
        if c0 == 'w' {
            Some((ContainerType::WebApplication, i + 2))
        } else if c0 == 'm' {
            Some((ContainerType::MobileApp, i + 2))
        } else if c0 == 'd' {
            Some((ContainerType::Database, i + 2))
        } else if c0 == 's' {
            Some((ContainerType::Microservice, i + 2))
        } else if c0 == 'q' {
            Some((ContainerType::Queue, i + 2))
        } else if c0 == 'o' {
            match p_str(s, i + 2) {
                Some((label, j)) => Some((ContainerType::Other(label), j)),
                None => None,
            }
        } else {
            None
        }
    } else {
        None
    }
}

/// Reads an element variant starting at `i`.
fn p_etype(s: &Vec<char>, i: usize) -> (r: Option<(ElementType, usize)>)
    requires
        i <= s@.len(),
    ensures
        match r {
            Some(p) => i <= p.1 <= s@.len() && parse_etype(s@.skip(i as int)) == Some(
                (p.0@, s@.skip(p.1 as int)),
            ),
            None => parse_etype(s@.skip(i as int)) is None,
        },
{
    if s.len() - i >= 2 {
        let c0 = s[i];
        let c1 = s[i + 1];
        proof {
            assert(s@.skip(i as int)[0] == s@[i as int]);
            assert(s@.skip(i as int)[1] == s@[i as int + 1]);
            assert(s@.skip(i as int).skip(2) =~= s@.skip(i as int + 2));
        }
        if !(c1 == ' ') {
            return None;
        }
        if c0 == 'P' || c0 == 'S' {
            let (is_external, j1) = match p_bool(s, i + 2) {
                Some(x) => x,
                None => {
                    return None;
                },
            };
            let (name, j2) = match p_str(s, j1) {
                Some(x) => x,
                None => {
                    return None;
                },
            };
            let (description, j3) = match p_str(s, j2) {
                Some(x) => x,
                None => {
                    return None;
                },
            };
            if c0 == 'P' {
                Some((ElementType::Person(PersonData { name, description, is_external }), j3))
            } else {
                Some(
                    (
                        ElementType::SoftwareSystem(SystemData { name, description, is_external }),
                        j3,
                    ),
                )
            }
        } else if c0 == 'C' {
            let (container_type, j1) = match p_ctype(s, i + 2) {
                Some(x) => x,
                None => {
                    return None;
                },
            };
            let (technology, j2) = match p_str(s, j1) {
                Some(x) => x,
                None => {
                    return None;
                },
            };
            let (name, j3) = match p_str(s, j2) {
                Some(x) => x,
                None => {
                    return None;
                },
            };
            let (description, j4) = match p_str(s, j3) {
                Some(x) => x,
                None => {
                    return None;
                },
            };
            Some(
                (
                    ElementType::Container(
                        ContainerData { name, description, container_type, technology },
                    ),
                    j4,
                ),
            )
        } else {
            None
        }
    } else {
        None
    }
}

/// Reads one element starting at `i`.
fn p_element(s: &Vec<char>, i: usize) -> (r: Option<(Element, usize)>)
    requires
        i <= s@.len(),
    ensures
        match r {
            Some(p) => i <= p.1 <= s@.len() && parse_element(s@.skip(i as int)) == Some(
                (p.0@, s@.skip(p.1 as int)),
            ),
            None => parse_element(s@.skip(i as int)) is None,
        },
{
    if s.len() - i >= 2 {
        let c0 = s[i];
        let c1 = s[i + 1];
        proof {
            assert(s@.skip(i as int)[0] == s@[i as int]);
            assert(s@.skip(i as int)[1] == s@[i as int + 1]);
            assert(s@.skip(i as int).skip(2) =~= s@.skip(i as int + 2));
        }
        if !(c0 == 'E' && c1 == ' ') {
            return None;
        }
        let (idv, j1) = match p_num(s, i + 2, 32) {
            Some(x) => x,
            None => {
                return None;
            },
        };
        proof {
            lemma_u128_fits();
        }
        let (px, j2) = match p_i64(s, j1) {
            Some(x) => x,
            None => {
                return None;
            },
        };
        let (py, j3) = match p_i64(s, j2) {
            Some(x) => x,
            None => {
                return None;
            },
        };
        let (w, j4) = match p_i64(s, j3) {
            Some(x) => x,
            None => {
                return None;
            },
        };
        let (h, j5) = match p_i64(s, j4) {
            Some(x) => x,
            None => {
                return None;
            },
        };
        let (et, j6) = match p_etype(s, j5) {
            Some(x) => x,
            None => {
                return None;
            },
        };
        Some(
            (
                Element {
                    id: crate::ids::ElementId(idv),
                    element_type: et,
                    position: Position { x: px, y: py },
                    size: Size { width: w, height: h },
                },
                j6,
            ),
        )
    } else {
        proof {
            assert(s@.skip(i as int).len() < 2);
        }
        None
    }
}

/// Reads one relationship starting at `i`.
fn p_rel(s: &Vec<char>, i: usize) -> (r: Option<(Relationship, usize)>)
    requires
        i <= s@.len(),
    ensures
        match r {
            Some(p) => i <= p.1 <= s@.len() && parse_rel(s@.skip(i as int)) == Some(
                (p.0@, s@.skip(p.1 as int)),
            ),
            None => parse_rel(s@.skip(i as int)) is None,
        },
{
    if s.len() - i >= 2 {
        let c0 = s[i];
        let c1 = s[i + 1];
        proof {
            assert(s@.skip(i as int)[0] == s@[i as int]);
            assert(s@.skip(i as int)[1] == s@[i as int + 1]);
            assert(s@.skip(i as int).skip(2) =~= s@.skip(i as int + 2));
        }
        if !(c0 == 'R' && c1 == ' ') {
            return None;
        }
        let (idv, j1) = match p_num(s, i + 2, 32) {
            Some(x) => x,
            None => {
                return None;
            },
        };
        let (srcv, j2) = match p_num(s, j1, 32) {
            Some(x) => x,
            None => {
                return None;
            },
        };
        let (tgtv, j3) = match p_num(s, j2, 32) {
            Some(x) => x,
            None => {
                return None;
            },
        };
        proof {
            lemma_u128_fits();
        }
        let (description, j4) = match p_str(s, j3) {
            Some(x) => x,
            None => {
                return None;
            },
        };
        let (has_tech, j5) = match p_bool(s, j4) {
            Some(x) => x,
            None => {
                return None;
            },
        };
        if has_tech {
            let (t, j6) = match p_str(s, j5) {
                Some(x) => x,
                None => {
                    return None;
                },
            };
            Some(
                (
                    Relationship {
                        id: crate::ids::ElementId(idv),
                        source_id: crate::ids::ElementId(srcv),
                        target_id: crate::ids::ElementId(tgtv),
                        description,
                        technology: Some(t),
                    },
                    j6,
                ),
            )
        } else {
            Some(
                (
                    Relationship {
                        id: crate::ids::ElementId(idv),
                        source_id: crate::ids::ElementId(srcv),
                        target_id: crate::ids::ElementId(tgtv),
                        description,
                        technology: None,
                    },
                    j5,
                ),
            )
        }
    } else {
        proof {
            assert(s@.skip(i as int).len() < 2);
        }
        None
    }
}

/// Reads `n` elements starting at `i`.
fn p_elements(s: &Vec<char>, i: usize, n: u64) -> (r: Option<(Vec<Element>, usize)>)
    requires
        i <= s@.len(),
    ensures
        match r {
            Some(p) => i <= p.1 <= s@.len() && parse_elements(s@.skip(i as int), n as nat) == Some(
                (elem_views(p.0@), s@.skip(p.1 as int)),
            ),
            None => parse_elements(s@.skip(i as int), n as nat) is None,
        },
{
    let mut acc: Vec<Element> = Vec::new();
    let mut cur: usize = i;
    let mut k: u64 = 0;
    while k < n
        invariant
            0 <= k <= n,
            i <= cur <= s@.len(),
            parse_elements(s@.skip(i as int), n as nat) == (match parse_elements(
                s@.skip(cur as int),
                (n - k) as nat,
            ) {
                Some(q) => Some((elem_views(acc@) + q.0, q.1)),
                None => None::<(Seq<ElementView>, Seq<char>)>,
            }),
        decreases n - k,
    {
        match p_element(s, cur) {
            Some((e, j)) => {
                proof {
                    let rem = s@.skip(cur as int);
                    let sub = parse_elements(s@.skip(j as int), (n - k - 1) as nat);
                    assert(parse_elements(rem, (n - k) as nat) == (match sub {
                        Some(q) => Some((seq![e@] + q.0, q.1)),
                        None => None::<(Seq<ElementView>, Seq<char>)>,
                    }));
                    assert(elem_views(acc@.push(e)) =~= elem_views(acc@).push(e@));
                    if sub is Some {
                        assert(elem_views(acc@) + (seq![e@] + sub->Some_0.0) =~= elem_views(
                            acc@.push(e),
                        ) + sub->Some_0.0);
                    }
                }
                acc.push(e);
                cur = j;
            },
            None => {
                return None;
            },
        }
        k = k + 1;
    }
    proof {
        assert(elem_views(acc@) + Seq::<ElementView>::empty() =~= elem_views(acc@));
    }
    Some((acc, cur))
}

/// Reads `n` relationships starting at `i`.
fn p_rels(s: &Vec<char>, i: usize, n: u64) -> (r: Option<(Vec<Relationship>, usize)>)
    requires
        i <= s@.len(),
    ensures
        match r {
            Some(p) => i <= p.1 <= s@.len() && parse_rels(s@.skip(i as int), n as nat) == Some(
                (rel_views(p.0@), s@.skip(p.1 as int)),
            ),
            None => parse_rels(s@.skip(i as int), n as nat) is None,
        },
{
    let mut acc: Vec<Relationship> = Vec::new();
    let mut cur: usize = i;
    let mut k: u64 = 0;
    while k < n
        invariant
            0 <= k <= n,
            i <= cur <= s@.len(),
            parse_rels(s@.skip(i as int), n as nat) == (match parse_rels(
                s@.skip(cur as int),
                (n - k) as nat,
            ) {
                Some(q) => Some((rel_views(acc@) + q.0, q.1)),
                None => None::<(Seq<RelationshipView>, Seq<char>)>,
            }),
        decreases n - k,
    {
        match p_rel(s, cur) {
            Some((e, j)) => {
                proof {
                    let rem = s@.skip(cur as int);
                    let sub = parse_rels(s@.skip(j as int), (n - k - 1) as nat);
                    assert(parse_rels(rem, (n - k) as nat) == (match sub {
                        Some(q) => Some((seq![e@] + q.0, q.1)),
                        None => None::<(Seq<RelationshipView>, Seq<char>)>,
                    }));
                    assert(rel_views(acc@.push(e)) =~= rel_views(acc@).push(e@));
                    if sub is Some {
                        assert(rel_views(acc@) + (seq![e@] + sub->Some_0.0) =~= rel_views(
                            acc@.push(e),
                        ) + sub->Some_0.0);
                    }
                }
                acc.push(e);
                cur = j;
            },
            None => {
                return None;
            },
        }
        k = k + 1;
    }
    proof {
        assert(rel_views(acc@) + Seq::<RelationshipView>::empty() =~= rel_views(acc@));
    }
    Some((acc, cur))
}

/// Whether no two elements share an identifier.
fn check_distinct(elements: &Vec<Element>) -> (b: bool)
    ensures
        b == distinct_ids(elem_views(elements@)),
{
    let n = elements.len();
    let ghost ev = elem_views(elements@);
    let mut a: usize = 0;
    while a < n
        invariant
            0 <= a <= n,
            n == elements@.len(),
            ev == elem_views(elements@),
            forall|x: int, y: int| 0 <= x < y < n && x < a ==> (#[trigger] ev[x]).id != (
            #[trigger] ev[y]).id,
        decreases n - a,
    {
        let mut b: usize = a + 1;
        while b < n
            invariant
                0 <= a < b <= n,
                n == elements@.len(),
                ev == elem_views(elements@),
                forall|y: int| a < y < b ==> (#[trigger] ev[y]).id != ev[a as int].id,
            decreases n - b,
        {
            if elements[a].id == elements[b].id {
                proof {
                    assert(ev[a as int].id == ev[b as int].id);
                }
                return false;
            }
            proof {
                assert(ev[b as int] == elements@[b as int]@);
                assert(ev[a as int] == elements@[a as int]@);
            }
            b = b + 1;
        }
        a = a + 1;
    }
    true
}

/// Whether every relationship's endpoints are present.
fn check_rels(elements: &Vec<Element>, relationships: &Vec<Relationship>) -> (b: bool)
    ensures
        b == rels_valid(elem_views(elements@), rel_views(relationships@)),
{
    let m = relationships.len();
    let ghost ev = elem_views(elements@);
    let ghost rv = rel_views(relationships@);
    let mut k: usize = 0;
    while k < m
        invariant
            0 <= k <= m,
            m == relationships@.len(),
            ev == elem_views(elements@),
            rv == rel_views(relationships@),
            forall|x: int| 0 <= x < k ==> contains_id(ev, (#[trigger] rv[x]).source_id)
                && contains_id(ev, rv[x].target_id),
        decreases m - k,
    {
        proof {
            assert(rv[k as int] == relationships@[k as int]@);
        }
        let src_ok = find_index(elements, relationships[k].source_id).is_some();
        let tgt_ok = find_index(elements, relationships[k].target_id).is_some();
        proof {
            if src_ok {
                assert(contains_id(ev, rv[k as int].source_id));
            }
            if tgt_ok {
                assert(contains_id(ev, rv[k as int].target_id));
            }
        }
        if !(src_ok && tgt_ok) {
            return false;
        }
        k = k + 1;
    }
    true
}

impl Diagram {
    /// Restores a diagram from its serialized text. Fails on anything but
    /// a complete, well-formed document: malformed text, trailing content,
    /// duplicate element identifiers, and relationships with missing
    /// endpoints are all rejected, leaving the caller's state untouched.
    /// An unrecognized version tag alone is not an error: the diagram
    /// loads with the current version.
    #[verifier::rlimit(80)]
    pub fn from_text(text: &str) -> (r: Result<Diagram, ParseError>)
        ensures
            match r {
                Ok(d) => spec_from_text(text@) == Some(d@) && d.wf(),
                Err(_) => spec_from_text(text@) is None,
            },
    {
        let s = chars_of(text);
        proof {
            reveal_strlit("c4d ");
        }
        if s.len() < 4 {
            return Err(ParseError);
        }
        if !(s[0] == 'c' && s[1] == '4' && s[2] == 'd' && s[3] == ' ') {
            proof {
                if parse_lit(s@, "c4d "@) is Some {
                    assert(s@.take(4)[0] == 'c' && s@.take(4)[1] == '4' && s@.take(4)[2] == 'd'
                        && s@.take(4)[3] == ' ');
                }
            }
            return Err(ParseError);
        }
        proof {
            assert(s@.take(4) =~= "c4d "@);
        }
        let (version, i1) = match p_str(&s, 4) {
            Some(x) => x,
            None => {
                return Err(ParseError);
            },
        };
        let (name, i2) = match p_str(&s, i1) {
            Some(x) => x,
            None => {
                return Err(ParseError);
            },
        };
        let (description, i3) = match p_str(&s, i2) {
            Some(x) => x,
            None => {
                return Err(ParseError);
            },
        };
        let (diagram_type, i4) = match p_dtype(&s, i3) {
            Some(x) => x,
            None => {
                return Err(ParseError);
            },
        };
        let (ne, i5) = match p_num(&s, i4, 16) {
            Some(x) => x,
            None => {
                return Err(ParseError);
            },
        };
        proof {
            lemma_u64_fits();
        }
        let (elements, i6) = match p_elements(&s, i5, ne as u64) {
            Some(x) => x,
            None => {
                return Err(ParseError);
            },
        };
        let (nr, i7) = match p_num(&s, i6, 16) {
            Some(x) => x,
            None => {
                return Err(ParseError);
            },
        };
        let (relationships, i8) = match p_rels(&s, i7, nr as u64) {
            Some(x) => x,
            None => {
                return Err(ParseError);
            },
        };
        if i8 != s.len() {
            proof {
                assert(s@.skip(i8 as int).len() > 0);
            }
            return Err(ParseError);
        }
        let version = if version.as_str().unicode_len() == 3 && version.as_str().get_char(0) == '1'
            && version.as_str().get_char(1) == '.' && version.as_str().get_char(2) == '0' {
            proof {
                reveal_strlit("1.0");
                assert(version@ =~= "1.0"@);
            }
            version
        } else {
            proof {
                reveal_strlit("1.0");
                if version@ == "1.0"@ {
                    assert(version@.len() == 3 && version@[0] == '1' && version@[1] == '.'
                        && version@[2] == '0');
                }
            }
            crate::default_version()
        };
        if !check_distinct(&elements) {
            return Err(ParseError);
        }
        if !check_rels(&elements, &relationships) {
            return Err(ParseError);
        }
        let d = Diagram { version, name, description, diagram_type, elements, relationships };
        proof {
            assert(s@.skip(i8 as int).len() == 0);
        }
        Ok(d)
    }
}

} // verus!
