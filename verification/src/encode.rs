//! Encoding field bodies into a self-describing multipart document, and
//! the round-trip law: decoding an encoded document yields the original
//! bodies back, CRLF normalized to LF, in document order — provided the
//! boundary token is synthetic, that is, it owns a byte no body contains.
use crate::bytes::{
    append_bytes, find_at, lemma_find_at_exact, lemma_find_at_none, occurs_at, split_on,
    strip_suffix,
};
use crate::multipart::{
    all_ws, blank_line, blank_line_exec, crlf, crlf_exec, multipart_fields, normalize_crlf,
    seg_delim, seg_term,
};
use vstd::prelude::*;

verus! {

/// The segments of an encoded document, joined by the segment delimiter:
/// each body behind one blank line (its empty header block).
pub open spec fn joined_segments(bodies: Seq<Seq<u8>>, b: Seq<u8>) -> Seq<u8>
    decreases bodies.len(),
{
    if bodies.len() == 0 {
        Seq::<u8>::empty()
    } else if bodies.len() == 1 {
        blank_line() + bodies[0]
    } else {
        blank_line() + bodies[0] + seg_delim(b) + joined_segments(bodies.drop_first(), b)
    }
}

/// A whole self-describing multipart document: the boundary line, the
/// joined segments, the closing marker.
pub open spec fn encode_spec(bodies: Seq<Seq<u8>>, b: Seq<u8>) -> Seq<u8> {
    b + crlf() + joined_segments(bodies, b) + seg_term(b)
}

/// Encodes field bodies into one self-describing multipart document with
/// the given boundary token.
pub fn encode_multipart(bodies: &Vec<Vec<u8>>, boundary: &Vec<u8>) -> (r: Vec<u8>)
    ensures
        r@ == encode_spec(bodies@.map_values(|v: Vec<u8>| v@), boundary@),
{
    let ghost g = bodies@.map_values(|v: Vec<u8>| v@);
    let ghost b = boundary@;
    let n = bodies.len();
    let mut out: Vec<u8> = Vec::new();
    append_bytes(&mut out, boundary);
    let crlf_v = crlf_exec();
    append_bytes(&mut out, &crlf_v);
    assert(out@ =~= b + crlf());
    if n == 0 {
        let mut term: Vec<u8> = crlf_exec();
        append_bytes(&mut term, boundary);
        term.push(45);
        term.push(45);
        term.push(13);
        term.push(10);
        assert(term@ =~= seg_term(b));
        append_bytes(&mut out, &term);
        proof {
            assert(joined_segments(g, b) =~= Seq::<u8>::empty());
            assert(out@ =~= encode_spec(g, b));
        }
        return out;
    }
    let blank = blank_line_exec();
    append_bytes(&mut out, &blank);
    append_bytes(&mut out, &bodies[0]);
    let mut delim: Vec<u8> = crlf_exec();
    append_bytes(&mut delim, boundary);
    let tailcrlf = crlf_exec();
    append_bytes(&mut delim, &tailcrlf);
    assert(delim@ =~= seg_delim(b));
    let mut i: usize = 1;
    proof {
        assert(g[0] == bodies@[0]@);
        if g.len() == 1 {
            assert(joined_segments(g, b) == blank_line() + g[0]);
            assert(b + crlf() + joined_segments(g, b) =~= out@);
        } else {
            assert(g.drop_first() =~= g.subrange(1, g.len() as int));
            assert(b + crlf() + joined_segments(g, b) =~= out@ + (seg_delim(b)
                + joined_segments(g.subrange(1, g.len() as int), b)));
        }
    }
    while i < n
        invariant
            n == bodies@.len(),
            g == bodies@.map_values(|v: Vec<u8>| v@),
            delim@ == seg_delim(b),
            blank@ == blank_line(),
            1 <= i <= n,
            (if i == n {
                b + crlf() + joined_segments(g, b) == out@
            } else {
                b + crlf() + joined_segments(g, b) == out@ + (seg_delim(b) + joined_segments(
                    g.subrange(i as int, g.len() as int),
                    b,
                ))
            }),
        decreases n - i,
    {
        let ghost prev = out@;
        let ghost tail = g.subrange(i as int, g.len() as int);
        append_bytes(&mut out, &delim);
        append_bytes(&mut out, &blank);
        append_bytes(&mut out, &bodies[i]);
        proof {
            assert(tail[0] == g[i as int]);
            assert(g[i as int] == bodies@[i as int]@);
            assert(out@ =~= prev + seg_delim(b) + blank_line() + g[i as int]);
            if i + 1 == n {
                assert(joined_segments(tail, b) == blank_line() + tail[0]);
                assert(prev + (seg_delim(b) + joined_segments(tail, b)) =~= out@);
            } else {
                assert(tail.drop_first() =~= g.subrange(i + 1, g.len() as int));
                assert(joined_segments(tail, b) == blank_line() + tail[0] + seg_delim(b)
                    + joined_segments(g.subrange(i + 1, g.len() as int), b));
                assert(prev + (seg_delim(b) + joined_segments(tail, b)) =~= out@ + (seg_delim(b)
                    + joined_segments(g.subrange(i + 1, g.len() as int), b)));
            }
        }
        i = i + 1;
    }
    let mut term: Vec<u8> = crlf_exec();
    append_bytes(&mut term, boundary);
    term.push(45);
    term.push(45);
    term.push(13);
    term.push(10);
    assert(term@ =~= seg_term(b));
    append_bytes(&mut out, &term);
    assert(out@ =~= encode_spec(g, b));
    out
}

/// No occurrence of the segment delimiter can start inside a region whose
/// bytes avoid `x`, when `x` is a byte of the boundary (first at index
/// `j`) and the delimiter itself follows that region.
proof fn lemma_no_early_delim(s: Seq<u8>, alen: int, b: Seq<u8>, x: u8, j: int)
    requires
        0 <= alen <= s.len(),
        0 <= j < b.len(),
        b[j] == x,
        forall|k: int| 0 <= k < j ==> b[k] != x,
        x != 13,
        x != 10,
        forall|p: int| 0 <= p < alen ==> s[p] != x,
        forall|p: int|
            alen <= p < s.len() && p - alen < seg_delim(b).len() ==> #[trigger] s[p] == seg_delim(
                b,
            )[p - alen],
    ensures
        forall|p: int| 0 <= p < alen ==> !occurs_at(s, seg_delim(b), p),
{
    let delim = seg_delim(b);
    assert(delim.len() == b.len() + 4);
    assert forall|p: int| 0 <= p < alen implies !occurs_at(s, delim, p) by {
        if occurs_at(s, delim, p) {
            assert(delim[2 + j] == b[j]);
            assert(delim[2 + j] == s[p + (2 + j)]);
            let q = p + 2 + j;
            assert(s[q] == x);
            if q < alen {
                assert(false);
            } else {
                let m = q - alen;
                assert(q < p + delim.len() <= s.len());
                assert(m < 2 + j);
                assert(s[q] == delim[m]);
                if m < 2 {
                    assert(delim[m] == crlf()[m]);
                    assert(false);
                } else {
                    assert(delim[m] == b[m - 2]);
                    assert(b[m - 2] == x && m - 2 < j);
                    assert(false);
                }
            }
        }
    }
}

/// With the first delimiter occurrence exactly at `alen`, splitting peels
/// off the first `alen` bytes as one piece.
proof fn lemma_split_at(s: Seq<u8>, alen: int, delim: Seq<u8>)
    requires
        delim.len() > 0,
        0 <= alen,
        alen + delim.len() <= s.len(),
        occurs_at(s, delim, alen),
        forall|p: int| 0 <= p < alen ==> !occurs_at(s, delim, p),
    ensures
        split_on(s, delim) == seq![s.subrange(0, alen)] + split_on(
            s.subrange(alen + delim.len(), s.len() as int),
            delim,
        ),
{
    lemma_find_at_exact(s, delim, 0, alen);
}

/// With no delimiter occurrence at all, the whole string is one piece.
proof fn lemma_split_none(s: Seq<u8>, delim: Seq<u8>)
    requires
        delim.len() > 0,
        forall|p: int| 0 <= p ==> !occurs_at(s, delim, p),
    ensures
        split_on(s, delim) == seq![s],
{
    lemma_find_at_none(s, delim, 0);
}

/// Splitting the joined segments on the delimiter recovers exactly the
/// encoded segments, one per body.
proof fn lemma_split_joined(bodies: Seq<Seq<u8>>, b: Seq<u8>, x: u8, j: int)
    requires
        bodies.len() >= 1,
        b.len() > 0,
        0 <= j < b.len(),
        b[j] == x,
        forall|k: int| 0 <= k < j ==> b[k] != x,
        x != 13,
        x != 10,
        forall|i: int| 0 <= i < bodies.len() ==> !(#[trigger] bodies[i]).contains(x),
    ensures
        split_on(joined_segments(bodies, b), seg_delim(b)) == bodies.map_values(
            |v: Seq<u8>| blank_line() + v,
        ),
    decreases bodies.len(),
{
    let s = joined_segments(bodies, b);
    let delim = seg_delim(b);
    let body0 = bodies[0];
    let alen = 4 + body0.len() as int;
    assert(delim.len() == b.len() + 4);
    if bodies.len() == 1 {
        assert(s == blank_line() + body0);
        assert forall|p: int| 0 <= p < s.len() implies s[p] != x by {
            if p >= 4 {
                assert(s[p] == body0[p - 4]);
                assert(!body0.contains(x));
                if s[p] == x {
                    assert(body0[p - 4] == x);
                    assert(body0.contains(x));
                }
            }
        }
        lemma_no_early_delim(s, s.len() as int, b, x, j);
        assert forall|p: int| 0 <= p implies !occurs_at(s, delim, p) by {
            if occurs_at(s, delim, p) {
                assert(p + delim.len() <= s.len());
                assert(p < s.len() as int);
            }
        }
        lemma_split_none(s, delim);
        assert(seq![s] =~= bodies.map_values(|v: Seq<u8>| blank_line() + v));
    } else {
        let rest = joined_segments(bodies.drop_first(), b);
        assert(s == blank_line() + body0 + delim + rest);
        assert forall|k: int| 0 <= k < delim.len() implies #[trigger] delim[k] == s[alen + k] by {
            assert(s[alen + k] == ((blank_line() + body0 + delim))[alen + k]);
            assert(((blank_line() + body0 + delim))[alen + k] == delim[k]);
        }
        assert(occurs_at(s, delim, alen));
        assert forall|p: int| 0 <= p < alen implies s[p] != x by {
            if p >= 4 {
                assert(s[p] == body0[p - 4]);
                if s[p] == x {
                    assert(body0.contains(x));
                }
            }
        }
        assert forall|p: int|
            alen <= p < s.len() && p - alen < delim.len() implies #[trigger] s[p] == delim[
            p - alen
        ] by {
            assert(delim[p - alen] == s[alen + (p - alen)]);
        }
        lemma_no_early_delim(s, alen, b, x, j);
        lemma_split_at(s, alen, delim);
        assert(s.subrange(0, alen) =~= blank_line() + body0);
        assert(s.subrange(alen + delim.len(), s.len() as int) =~= rest);
        lemma_split_joined(bodies.drop_first(), b, x, j);
        assert(bodies.drop_first().map_values(|v: Seq<u8>| blank_line() + v) =~= bodies.map_values(
            |v: Seq<u8>| blank_line() + v,
        ).drop_first());
        assert(seq![blank_line() + body0] + bodies.map_values(
            |v: Seq<u8>| blank_line() + v,
        ).drop_first() =~= bodies.map_values(|v: Seq<u8>| blank_line() + v));
    }
}

/// Each encoded segment yields its body back, normalized; none is
/// dropped when no body is pure whitespace.
proof fn lemma_fields_of_encoded(bodies: Seq<Seq<u8>>)
    requires
        forall|i: int| 0 <= i < bodies.len() ==> !all_ws(#[trigger] bodies[i]),
    ensures
        crate::multipart::fields_of_segments(bodies.map_values(|v: Seq<u8>| blank_line() + v))
            == bodies.map_values(|v: Seq<u8>| normalize_crlf(v)),
    decreases bodies.len(),
{
    let segs = bodies.map_values(|v: Seq<u8>| blank_line() + v);
    if bodies.len() == 0 {
        assert(segs =~= Seq::<Seq<u8>>::empty());
        assert(bodies.map_values(|v: Seq<u8>| normalize_crlf(v)) =~= Seq::<Seq<u8>>::empty());
    } else {
        let seg = segs[0];
        let body0 = bodies[0];
        assert(seg == blank_line() + body0);
        assert forall|k: int| 0 <= k < blank_line().len() implies #[trigger] blank_line()[k]
            == seg[0 + k] by {}
        assert(occurs_at(seg, blank_line(), 0));
        assert(find_at(seg, blank_line(), 0) == Some(0int));
        assert(seg.subrange(4int, seg.len() as int) =~= body0);
        assert(crate::multipart::segment_value(seg) == Some(normalize_crlf(body0)));
        lemma_fields_of_encoded(bodies.drop_first());
        assert(segs.drop_first() =~= bodies.drop_first().map_values(
            |v: Seq<u8>| blank_line() + v,
        ));
        assert(seg.len() > 0);
        assert(crate::multipart::fields_of_segments(segs) == seq![normalize_crlf(body0)]
            + crate::multipart::fields_of_segments(segs.drop_first()));
        assert(seq![normalize_crlf(body0)] + bodies.drop_first().map_values(
            |v: Seq<u8>| normalize_crlf(v),
        ) =~= bodies.map_values(|v: Seq<u8>| normalize_crlf(v)));
    }
}

/// A document holding only the boundary markers — no segment at all —
/// decodes to the empty sequence of fields, never an error.
pub proof fn lemma_empty_document_decodes_empty(b: Seq<u8>)
    requires
        b.len() > 0,
        forall|k: int| 0 <= k < b.len() ==> #[trigger] b[k] != 13 && b[k] != 10,
    ensures
        multipart_fields(encode_spec(Seq::<Seq<u8>>::empty(), b)) == Seq::<Seq<u8>>::empty(),
{
    let x = b[0];
    assert(b.contains(x));
    lemma_multipart_round_trip(Seq::<Seq<u8>>::empty(), b);
    assert(Seq::<Seq<u8>>::empty().map_values(|v: Seq<u8>| normalize_crlf(v)) =~= Seq::<
        Seq<u8>,
    >::empty());
}

/// The round-trip law: decoding an encoded document yields the original
/// bodies, CRLF normalized to LF, in document order.  It asks for a
/// synthetic boundary: no CR or LF in the token, and some byte of the
/// token occurs in no body; and for no body that is pure whitespace,
/// since the decoder drops those.
pub proof fn lemma_multipart_round_trip(bodies: Seq<Seq<u8>>, b: Seq<u8>)
    requires
        b.len() > 0,
        forall|k: int| 0 <= k < b.len() ==> #[trigger] b[k] != 13 && b[k] != 10,
        exists|x: u8|
            b.contains(x) && (forall|i: int|
                0 <= i < bodies.len() ==> !(#[trigger] bodies[i]).contains(x)),
        forall|i: int| 0 <= i < bodies.len() ==> !all_ws(#[trigger] bodies[i]),
    ensures
        multipart_fields(encode_spec(bodies, b)) == bodies.map_values(
            |v: Seq<u8>| normalize_crlf(v),
        ),
{
    let enc = encode_spec(bodies, b);
    let joined = joined_segments(bodies, b);
    let blen = b.len() as int;
    assert(enc == b + crlf() + joined + seg_term(b));
    // the boundary line is the first CRLF-terminated line
    assert forall|k: int| 0 <= k < crlf().len() implies #[trigger] crlf()[k] == enc[blen + k] by {
        assert(enc[blen + k] == (b + crlf())[blen + k]);
    }
    assert(occurs_at(enc, crlf(), blen));
    assert forall|p: int| 0 <= p < blen implies !occurs_at(enc, crlf(), p) by {
        if occurs_at(enc, crlf(), p) {
            assert(crlf()[0] == enc[p + 0]);
            assert(enc[p] == b[p]);
        }
    }
    lemma_find_at_exact(enc, crlf(), 0, blen);
    assert(enc.subrange(0, blen) =~= b);
    let rest = enc.subrange(blen + 2, enc.len() as int);
    assert(rest =~= joined + seg_term(b));
    // the closing marker is stripped
    let term = seg_term(b);
    assert forall|k: int| 0 <= k < term.len() implies #[trigger] term[k] == rest[
        joined.len() + k
    ] by {
        assert(rest[joined.len() + k] == (joined + term)[joined.len() + k]);
    }
    assert(occurs_at(rest, term, rest.len() - term.len()));
    assert(strip_suffix(rest, term) =~= joined);
    if bodies.len() == 0 {
        assert(joined =~= Seq::<u8>::empty());
        assert(find_at(joined, seg_delim(b), 0) is None);
        assert(split_on(joined, seg_delim(b)) == seq![joined]);
        assert(seq![joined].drop_first() =~= Seq::<Seq<u8>>::empty());
        assert(crate::multipart::fields_of_segments(Seq::<Seq<u8>>::empty()) =~= Seq::<
            Seq<u8>,
        >::empty());
        assert(crate::multipart::fields_of_segments(seq![joined]) =~= Seq::<Seq<u8>>::empty());
        assert(bodies.map_values(|v: Seq<u8>| normalize_crlf(v)) =~= Seq::<Seq<u8>>::empty());
        assert(multipart_fields(enc) == bodies.map_values(|v: Seq<u8>| normalize_crlf(v)));
    } else {
        let x = choose|x: u8|
            b.contains(x) && (forall|i: int|
                0 <= i < bodies.len() ==> !(#[trigger] bodies[i]).contains(x));
        b.index_of_first_ensures(x);
        let j = b.index_of_first(x).unwrap();
        assert(b[j] == x);
        assert(x != 13 && x != 10);
        lemma_split_joined(bodies, b, x, j);
        lemma_fields_of_encoded(bodies);
        assert(multipart_fields(enc) == bodies.map_values(|v: Seq<u8>| normalize_crlf(v)));
    }
}

} // verus!
