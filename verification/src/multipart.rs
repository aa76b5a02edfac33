//! Self-describing multipart decoding: the boundary token is the first
//! CRLF-terminated line of the body; the remainder is split on
//! `CRLF boundary CRLF`, a trailing `CRLF boundary "--" CRLF` terminator is
//! stripped, and each segment yields at most one field body (the bytes after
//! its first blank line, with CRLF normalized to LF).  Malformed segments are
//! dropped, never an error.
use crate::bytes::{
    append_bytes, find_at, find_sub, lemma_find_at_props, split_on, split_on_exec, strip_suffix,
    strip_suffix_exec, subvec,
};
use vstd::prelude::*;

verus! {

/// One value decoded out of a request body.  Multipart segments carry no
/// name; a structured form pair does.
pub struct DecodedField {
    pub name: Option<Vec<u8>>,
    pub value: Vec<u8>,
}

pub open spec fn crlf() -> Seq<u8> {
    seq![13u8, 10u8]
}

pub open spec fn blank_line() -> Seq<u8> {
    seq![13u8, 10u8, 13u8, 10u8]
}

/// The delimiter between two segments for boundary token `b`.
pub open spec fn seg_delim(b: Seq<u8>) -> Seq<u8> {
    crlf() + b + crlf()
}

/// The closing marker for boundary token `b`.
pub open spec fn seg_term(b: Seq<u8>) -> Seq<u8> {
    crlf() + b + seq![45u8, 45u8] + crlf()
}

pub open spec fn is_ws_byte(c: u8) -> bool {
    c == 32 || c == 9 || c == 10 || c == 13 || c == 12
}

pub open spec fn all_ws(s: Seq<u8>) -> bool {
    forall|i: int| 0 <= i < s.len() ==> is_ws_byte(#[trigger] s[i])
}

/// Every CRLF pair replaced by a single LF; lone CR and LF bytes stay.
pub open spec fn normalize_crlf(s: Seq<u8>) -> Seq<u8>
    decreases s.len(),
{
    if s.len() == 0 {
        Seq::empty()
    } else if s.len() >= 2 && s[0] == 13 && s[1] == 10 {
        seq![10u8] + normalize_crlf(s.subrange(2, s.len() as int))
    } else {
        seq![s[0]] + normalize_crlf(s.subrange(1, s.len() as int))
    }
}

/// The field body a single segment yields: the bytes after the first blank
/// line, normalized — or nothing, when the blank line is missing or the
/// body is only whitespace.
pub open spec fn segment_value(seg: Seq<u8>) -> Option<Seq<u8>> {
    match find_at(seg, blank_line(), 0) {
        None => None,
        Some(i) => {
            let body = seg.subrange(i + 4, seg.len() as int);
            if all_ws(body) {
                None
            } else {
                Some(normalize_crlf(body))
            }
        },
    }
}

/// The field bodies of a list of raw segments, in document order; empty
/// segments and segments without a value are dropped.
pub open spec fn fields_of_segments(segs: Seq<Seq<u8>>) -> Seq<Seq<u8>>
    decreases segs.len(),
{
    if segs.len() == 0 {
        Seq::<Seq<u8>>::empty()
    } else {
        let rest = fields_of_segments(segs.drop_first());
        if segs[0].len() == 0 {
            rest
        } else {
            match segment_value(segs[0]) {
                None => rest,
                Some(v) => seq![v] + rest,
            }
        }
    }
}

/// Resilience: a segment with no blank-line separator yields no field and
/// raises nothing; the remaining segments decode exactly as they would
/// without it.
pub proof fn lemma_malformed_segment_dropped(seg: Seq<u8>, rest: Seq<Seq<u8>>)
    requires
        find_at(seg, blank_line(), 0) is None,
    ensures
        fields_of_segments(seq![seg] + rest) == fields_of_segments(rest),
{
    assert((seq![seg] + rest).drop_first() =~= rest);
    assert((seq![seg] + rest)[0] == seg);
}

/// The complete decode of a self-describing multipart body.
pub open spec fn multipart_fields(body: Seq<u8>) -> Seq<Seq<u8>> {
    match find_at(body, crlf(), 0) {
        None => Seq::<Seq<u8>>::empty(),
        Some(i) => {
            let boundary = body.subrange(0, i);
            let rest = body.subrange(i + 2, body.len() as int);
            fields_of_segments(
                split_on(strip_suffix(rest, seg_term(boundary)), seg_delim(boundary)),
            )
        },
    }
}

pub(crate) fn crlf_exec() -> (r: Vec<u8>)
    ensures
        r@ == crlf(),
{
    let mut r: Vec<u8> = Vec::new();
    r.push(13);
    r.push(10);
    assert(r@ =~= crlf());
    r
}

pub(crate) fn blank_line_exec() -> (r: Vec<u8>)
    ensures
        r@ == blank_line(),
{
    let mut r: Vec<u8> = Vec::new();
    r.push(13);
    r.push(10);
    r.push(13);
    r.push(10);
    assert(r@ =~= blank_line());
    r
}

fn seg_delim_exec(b: &Vec<u8>) -> (r: Vec<u8>)
    ensures
        r@ == seg_delim(b@),
{
    let mut r = crlf_exec();
    append_bytes(&mut r, b);
    let tail = crlf_exec();
    append_bytes(&mut r, &tail);
    assert(r@ =~= seg_delim(b@));
    r
}

fn seg_term_exec(b: &Vec<u8>) -> (r: Vec<u8>)
    ensures
        r@ == seg_term(b@),
{
    let mut r = crlf_exec();
    append_bytes(&mut r, b);
    r.push(45);
    r.push(45);
    r.push(13);
    r.push(10);
    assert(r@ =~= seg_term(b@));
    r
}

fn all_ws_exec(s: &Vec<u8>) -> (r: bool)
    ensures
        r == all_ws(s@),
{
    let mut i: usize = 0;
    while i < s.len()
        invariant
            i <= s@.len(),
            forall|k: int| 0 <= k < i ==> is_ws_byte(#[trigger] s@[k]),
        decreases s@.len() - i,
    {
        let c = s[i];
        if !(c == 32 || c == 9 || c == 10 || c == 13 || c == 12) {
            assert(!is_ws_byte(s@[i as int]));
            return false;
        }
        i = i + 1;
    }
    true
}

/// Rewrites every CRLF pair in `s` to a single LF.
pub fn normalize_crlf_exec(s: &Vec<u8>) -> (r: Vec<u8>)
    ensures
        r@ == normalize_crlf(s@),
{
    let n = s.len();
    let mut r: Vec<u8> = Vec::new();
    let mut i: usize = 0;
    proof {
        assert(s@.subrange(0, s@.len() as int) =~= s@);
    }
    while i < n
        invariant
            n == s@.len(),
            i <= s@.len(),
            normalize_crlf(s@) == r@ + normalize_crlf(s@.subrange(i as int, s@.len() as int)),
        decreases s@.len() - i,
    {
        let ghost suf = s@.subrange(i as int, s@.len() as int);
        let ghost prev = r@;
        if s[i] == 13 && i + 1 < n && s[i + 1] == 10 {
            r.push(10);
            proof {
                assert(suf.subrange(2, suf.len() as int) =~= s@.subrange(
                    i + 2,
                    s@.len() as int,
                ));
                assert(normalize_crlf(suf) == seq![10u8] + normalize_crlf(
                    s@.subrange(i + 2, s@.len() as int),
                ));
                assert(prev + (seq![10u8] + normalize_crlf(s@.subrange(i + 2, s@.len() as int)))
                    =~= r@ + normalize_crlf(s@.subrange(i + 2, s@.len() as int)));
            }
            i = i + 2;
        } else {
            r.push(s[i]);
            proof {
                assert(suf.subrange(1, suf.len() as int) =~= s@.subrange(
                    i + 1,
                    s@.len() as int,
                ));
                assert(normalize_crlf(suf) == seq![s@[i as int]] + normalize_crlf(
                    s@.subrange(i + 1, s@.len() as int),
                ));
                assert(prev + (seq![s@[i as int]] + normalize_crlf(
                    s@.subrange(i + 1, s@.len() as int),
                )) =~= r@ + normalize_crlf(s@.subrange(i + 1, s@.len() as int)));
            }
            i = i + 1;
        }
    }
    proof {
        assert(s@.subrange(n as int, s@.len() as int) =~= Seq::<u8>::empty());
        assert(r@ + Seq::<u8>::empty() =~= r@);
    }
    r
}

/// Decodes one raw segment, per `segment_value`.
fn segment_value_exec(seg: &Vec<u8>) -> (r: Option<Vec<u8>>)
    ensures
        (match r {
            Some(v) => segment_value(seg@) == Some(v@),
            None => segment_value(seg@) is None,
        }),
{
    let blank = blank_line_exec();
    match find_sub(seg, &blank, 0) {
        None => None,
        Some(i) => {
            proof {
                lemma_find_at_props(seg@, blank_line(), 0);
            }
            let n = seg.len();
            let body = subvec(seg, i + 4, n);
            if all_ws_exec(&body) {
                None
            } else {
                Some(normalize_crlf_exec(&body))
            }
        },
    }
}

/// Decodes a self-describing multipart body into its field values, in
/// document order.  Never fails: malformed segments are dropped.
pub fn decode_multipart(body: &Vec<u8>) -> (r: Vec<DecodedField>)
    ensures
        r@.map_values(|f: DecodedField| f.value@) == multipart_fields(body@),
        forall|k: int| 0 <= k < r@.len() ==> (#[trigger] r@[k]).name is None,
{
    let mut r: Vec<DecodedField> = Vec::new();
    let crlf_v = crlf_exec();
    let found = find_sub(body, &crlf_v, 0);
    match found {
        None => {
            assert(r@.map_values(|f: DecodedField| f.value@) =~= multipart_fields(body@));
            r
        },
        Some(i) => {
            proof {
                lemma_find_at_props(body@, crlf(), 0);
            }
            let n = body.len();
            let boundary = subvec(body, 0, i);
            let rest = subvec(body, i + 2, n);
            let delim = seg_delim_exec(&boundary);
            let term = seg_term_exec(&boundary);
            let stripped = strip_suffix_exec(&rest, &term);
            let segs = split_on_exec(&stripped, &delim);
            let ghost gsegs = segs@.map_values(|p: Vec<u8>| p@);
            let mut k: usize = 0;
            proof {
                assert(gsegs.subrange(0, gsegs.len() as int) =~= gsegs);
                assert(r@.map_values(|f: DecodedField| f.value@) + fields_of_segments(gsegs)
                    =~= fields_of_segments(gsegs));
            }
            while k < segs.len()
                invariant
                    gsegs == segs@.map_values(|p: Vec<u8>| p@),
                    k <= segs@.len(),
                    fields_of_segments(gsegs) == r@.map_values(|f: DecodedField| f.value@)
                        + fields_of_segments(gsegs.subrange(k as int, gsegs.len() as int)),
                    forall|m: int| 0 <= m < r@.len() ==> (#[trigger] r@[m]).name is None,
                decreases segs@.len() - k,
            {
                let ghost tailsegs = gsegs.subrange(k as int, gsegs.len() as int);
                let ghost prevmap = r@.map_values(|f: DecodedField| f.value@);
                proof {
                    assert(tailsegs[0] == gsegs[k as int]);
                    assert(tailsegs.drop_first() =~= gsegs.subrange(
                        k + 1,
                        gsegs.len() as int,
                    ));
                }
                let seg = &segs[k];
                if seg.len() > 0 {
                    match segment_value_exec(seg) {
                        Some(v) => {
                            r.push(DecodedField { name: None, value: v });
                            proof {
                                let sv = segment_value(gsegs[k as int]).unwrap();
                                assert(r@.map_values(|f: DecodedField| f.value@) =~= prevmap.push(
                                    sv,
                                ));
                                assert(prevmap + (seq![sv] + fields_of_segments(
                                    gsegs.subrange(k + 1, gsegs.len() as int),
                                )) =~= prevmap.push(sv) + fields_of_segments(
                                    gsegs.subrange(k + 1, gsegs.len() as int),
                                ));
                            }
                        },
                        None => {},
                    }
                }
                k = k + 1;
            }
            proof {
                assert(gsegs.subrange(segs@.len() as int, gsegs.len() as int) =~= Seq::<
                    Seq<u8>,
                >::empty());
                assert(r@.map_values(|f: DecodedField| f.value@) + Seq::<Seq<u8>>::empty()
                    =~= r@.map_values(|f: DecodedField| f.value@));
            }
            r
        },
    }
}

} // verus!
