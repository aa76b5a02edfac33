//! Structured `application/x-www-form-urlencoded` decoding: the body is a
//! `&`-separated list of `name=value` pairs; `+` decodes to a space and
//! `%hh` to the byte the two hex digits spell.  A `%` not followed by two
//! hex digits passes through unchanged, so decoding is total.
use crate::bytes::{find_at, find_sub, lemma_find_at_props, split_on, split_on_exec, subvec};
use crate::multipart::DecodedField;
use vstd::prelude::*;

verus! {

pub open spec fn is_hex_digit(c: u8) -> bool {
    (48 <= c <= 57) || (65 <= c <= 70) || (97 <= c <= 102)
}

pub open spec fn hex_val(c: u8) -> u8 {
    if 48 <= c <= 57 {
        (c - 48) as u8
    } else if 65 <= c <= 70 {
        (c - 55) as u8
    } else if 97 <= c <= 102 {
        (c - 87) as u8
    } else {
        0
    }
}

/// Percent- and plus-decoding of one form token.
pub open spec fn url_decode(s: Seq<u8>) -> Seq<u8>
    decreases s.len(),
{
    if s.len() == 0 {
        Seq::empty()
    } else if s[0] == 43 {
        seq![32u8] + url_decode(s.subrange(1, s.len() as int))
    } else if s[0] == 37 && s.len() >= 3 && is_hex_digit(s[1]) && is_hex_digit(s[2]) {
        seq![(hex_val(s[1]) * 16 + hex_val(s[2])) as u8] + url_decode(
            s.subrange(3, s.len() as int),
        )
    } else {
        seq![s[0]] + url_decode(s.subrange(1, s.len() as int))
    }
}

/// The name/value pair one nonempty `&`-piece yields; the value of a pair
/// without `=` is empty.
pub open spec fn pair_of(piece: Seq<u8>) -> (Seq<u8>, Seq<u8>) {
    match find_at(piece, seq![61u8], 0) {
        None => (url_decode(piece), Seq::<u8>::empty()),
        Some(i) => (
            url_decode(piece.subrange(0, i)),
            url_decode(piece.subrange(i + 1, piece.len() as int)),
        ),
    }
}

/// The decoded pairs of a list of `&`-pieces, in document order; empty
/// pieces are dropped.
pub open spec fn pairs_of_pieces(pieces: Seq<Seq<u8>>) -> Seq<(Seq<u8>, Seq<u8>)>
    decreases pieces.len(),
{
    if pieces.len() == 0 {
        Seq::<(Seq<u8>, Seq<u8>)>::empty()
    } else {
        let rest = pairs_of_pieces(pieces.drop_first());
        if pieces[0].len() == 0 {
            rest
        } else {
            seq![pair_of(pieces[0])] + rest
        }
    }
}

/// The complete decode of a URL-encoded form body.
pub open spec fn form_fields(body: Seq<u8>) -> Seq<(Seq<u8>, Seq<u8>)> {
    pairs_of_pieces(split_on(body, seq![38u8]))
}

/// Percent- and plus-decodes one token.
pub fn url_decode_exec(s: &Vec<u8>) -> (r: Vec<u8>)
    ensures
        r@ == url_decode(s@),
{
    let n = s.len();
    let mut r: Vec<u8> = Vec::new();
    let mut i: usize = 0;
    proof {
        assert(s@.subrange(0, s@.len() as int) =~= s@);
    }
    while i < n
        invariant
            n == s@.len(),
            i <= s@.len(),
            url_decode(s@) == r@ + url_decode(s@.subrange(i as int, s@.len() as int)),
        decreases s@.len() - i,
    {
        let ghost suf = s@.subrange(i as int, s@.len() as int);
        let ghost prev = r@;
        let c = s[i];
        if c == 43 {
            r.push(32);
            proof {
                assert(suf.subrange(1, suf.len() as int) =~= s@.subrange(i + 1, s@.len() as int));
                assert(prev + (seq![32u8] + url_decode(s@.subrange(i + 1, s@.len() as int))) =~= r@
                    + url_decode(s@.subrange(i + 1, s@.len() as int)));
            }
            i = i + 1;
        } else if c == 37 && n - i >= 3 && hex_digit_exec(s[i + 1]) && hex_digit_exec(s[i + 2]) {
            let h = hex_val_exec(s[i + 1]);
            let l = hex_val_exec(s[i + 2]);
            r.push(h * 16 + l);
            proof {
                assert(suf[1] == s@[i + 1] && suf[2] == s@[i + 2]);
                assert(suf.subrange(3, suf.len() as int) =~= s@.subrange(i + 3, s@.len() as int));
                assert(prev + (seq![(hex_val(s@[i + 1]) * 16 + hex_val(s@[i + 2])) as u8]
                    + url_decode(s@.subrange(i + 3, s@.len() as int))) =~= r@ + url_decode(
                    s@.subrange(i + 3, s@.len() as int),
                ));
            }
            i = i + 3;
        } else {
            r.push(c);
            proof {
                assert(suf.subrange(1, suf.len() as int) =~= s@.subrange(i + 1, s@.len() as int));
                assert(url_decode(suf) == seq![s@[i as int]] + url_decode(
                    s@.subrange(i + 1, s@.len() as int),
                ));
                assert(prev + (seq![s@[i as int]] + url_decode(
                    s@.subrange(i + 1, s@.len() as int),
                )) =~= r@ + url_decode(s@.subrange(i + 1, s@.len() as int)));
            }
            i = i + 1;
        }
    }
    proof {
        assert(s@.subrange(n as int, s@.len() as int) =~= Seq::<u8>::empty());
        assert(r@ + Seq::<u8>::empty() =~= r@);
    }
    r
}

fn hex_digit_exec(c: u8) -> (r: bool)
    ensures
        r == is_hex_digit(c),
{
    (48 <= c && c <= 57) || (65 <= c && c <= 70) || (97 <= c && c <= 102)
}

fn hex_val_exec(c: u8) -> (r: u8)
    ensures
        r == hex_val(c),
        r < 16,
{
    if 48 <= c && c <= 57 {
        c - 48
    } else if 65 <= c && c <= 70 {
        c - 55
    } else if 97 <= c && c <= 102 {
        c - 87
    } else {
        0
    }
}

/// Decodes one nonempty `&`-piece into a named field.
fn pair_exec(piece: &Vec<u8>) -> (r: DecodedField)
    ensures
        r.name matches Some(nm) && nm@ == pair_of(piece@).0,
        r.value@ == pair_of(piece@).1,
{
    let n = piece.len();
    let mut eq: Vec<u8> = Vec::new();
    eq.push(61);
    assert(eq@ =~= seq![61u8]);
    match find_sub(piece, &eq, 0) {
        None => {
            let name = url_decode_exec(piece);
            let value: Vec<u8> = Vec::new();
            assert(value@ =~= Seq::<u8>::empty());
            DecodedField { name: Some(name), value }
        },
        Some(i) => {
            proof {
                lemma_find_at_props(piece@, seq![61u8], 0);
            }
            let raw_name = subvec(piece, 0, i);
            let raw_value = subvec(piece, i + 1, n);
            DecodedField {
                name: Some(url_decode_exec(&raw_name)),
                value: url_decode_exec(&raw_value),
            }
        },
    }
}

/// The spec-level view of one decoded named field.
pub open spec fn named_field_view(f: DecodedField) -> (Seq<u8>, Seq<u8>) {
    (f.name.unwrap()@, f.value@)
}

/// Decodes a URL-encoded form body into its named fields, in document
/// order.  Never fails.
pub fn decode_form(body: &Vec<u8>) -> (r: Vec<DecodedField>)
    ensures
        r@.map_values(|f: DecodedField| named_field_view(f)) == form_fields(body@),
        forall|k: int| 0 <= k < r@.len() ==> (#[trigger] r@[k]).name is Some,
{
    let mut amp: Vec<u8> = Vec::new();
    amp.push(38);
    assert(amp@ =~= seq![38u8]);
    let pieces = split_on_exec(body, &amp);
    let ghost gpieces = pieces@.map_values(|p: Vec<u8>| p@);
    let mut r: Vec<DecodedField> = Vec::new();
    let mut k: usize = 0;
    proof {
        assert(gpieces.subrange(0, gpieces.len() as int) =~= gpieces);
        assert(r@.map_values(|f: DecodedField| named_field_view(f)) + pairs_of_pieces(gpieces)
            =~= pairs_of_pieces(gpieces));
    }
    while k < pieces.len()
        invariant
            gpieces == pieces@.map_values(|p: Vec<u8>| p@),
            form_fields(body@) == pairs_of_pieces(gpieces),
            k <= pieces@.len(),
            pairs_of_pieces(gpieces) == r@.map_values(|f: DecodedField| named_field_view(f))
                + pairs_of_pieces(gpieces.subrange(k as int, gpieces.len() as int)),
            forall|m: int| 0 <= m < r@.len() ==> (#[trigger] r@[m]).name is Some,
        decreases pieces@.len() - k,
    {
        let ghost tail = gpieces.subrange(k as int, gpieces.len() as int);
        let ghost prevmap = r@.map_values(|f: DecodedField| named_field_view(f));
        proof {
            assert(tail[0] == gpieces[k as int]);
            assert(tail.drop_first() =~= gpieces.subrange(k + 1, gpieces.len() as int));
        }
        let piece = &pieces[k];
        if piece.len() > 0 {
            let f = pair_exec(piece);
            r.push(f);
            proof {
                let pv = pair_of(gpieces[k as int]);
                assert(r@.map_values(|f: DecodedField| named_field_view(f)) =~= prevmap.push(pv));
                assert(prevmap + (seq![pv] + pairs_of_pieces(tail.drop_first())) =~= prevmap.push(
                    pv,
                ) + pairs_of_pieces(tail.drop_first()));
            }
        }
        k = k + 1;
    }
    proof {
        assert(gpieces.subrange(gpieces.len() as int, gpieces.len() as int) =~= Seq::<
            Seq<u8>,
        >::empty());
        assert(r@.map_values(|f: DecodedField| named_field_view(f)) + Seq::<
            (Seq<u8>, Seq<u8>),
        >::empty() =~= r@.map_values(|f: DecodedField| named_field_view(f)));
    }
    r
}

} // verus!
