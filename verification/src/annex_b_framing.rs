//! What the Annex B scanner gives back of a framed stream, and what it never gives.
use crate::rtp_packetization::{
    annex_b_units_from, lemma_next_start_code, next_start_code, start_code3_at, start_code4_at,
    start_code_at,
};
use crate::h264_inspect::{
    first_header_after_start_code, holds_start_code, lemma_start_code_means_three_byte_code,
    nal_headers_from,
};
use vstd::prelude::*;

verus! {

/// The four-byte Annex B start code.
pub open spec fn start_code4() -> Seq<u8> {
    seq![0u8, 0u8, 0u8, 1u8]
}

/// `u` holds no `00 00 01`, so no start code can be read inside it.
pub open spec fn free_of_start_codes(u: Seq<u8>) -> bool {
    forall|k: int| !start_code3_at(u, k)
}

/// An Annex B stream that puts a four-byte start code before each NAL unit.
pub open spec fn annex_b_join(units: Seq<Seq<u8>>) -> Seq<u8>
    decreases units.len(),
{
    if units.len() == 0 {
        seq![]
    } else {
        start_code4() + units[0] + annex_b_join(units.drop_first())
    }
}

/// Start codes at or after the end of `p` in `p + q` are those of `q`, shifted.
proof fn lemma_start_code_shift(p: Seq<u8>, q: Seq<u8>, i: int)
    requires
        i >= p.len(),
    ensures
        start_code4_at(p + q, i) == start_code4_at(q, i - p.len()),
        start_code3_at(p + q, i) == start_code3_at(q, i - p.len()),
        start_code_at(p + q, i) == start_code_at(q, i - p.len()),
{
}

/// Searching for a start code at or after the end of `p` in `p + q` searches `q`.
proof fn lemma_next_start_code_shift(p: Seq<u8>, q: Seq<u8>, i: int)
    requires
        i >= p.len(),
    ensures
        next_start_code(p + q, i) == match next_start_code(q, i - p.len()) {
            Some(j) => Some(j + p.len()),
            None => None::<int>,
        },
    decreases (p + q).len() - i,
{
    lemma_start_code_shift(p, q, i);
    if i + 3 > (p + q).len() {
    } else if start_code_at(p + q, i) {
    } else {
        lemma_next_start_code_shift(p, q, i + 1);
    }
}

/// Scanning `p + q` from the end of `p` on finds the units of `q`.
proof fn lemma_units_shift(p: Seq<u8>, q: Seq<u8>, i: int)
    requires
        i >= p.len(),
    ensures
        annex_b_units_from(p + q, i) == annex_b_units_from(q, i - p.len()),
    decreases (p + q).len() - i,
{
    let b = p + q;
    let d = p.len() as int;
    lemma_start_code_shift(p, q, i);
    if i < 0 || i + 3 > b.len() {
    } else if start_code_at(b, i) {
        let s = if start_code4_at(b, i) {
            i + 4
        } else {
            i + 3
        };
        lemma_next_start_code_shift(p, q, s);
        lemma_next_start_code(b, s);
        match next_start_code(b, s) {
            Some(n) => {
                lemma_units_shift(p, q, n);
                assert(b.subrange(s, n) =~= q.subrange(s - d, n - d));
            },
            None => {
                assert(b.subrange(s, b.len() as int) =~= q.subrange(s - d, q.len() as int));
            },
        }
    } else {
        lemma_units_shift(p, q, i + 1);
    }
}

/// No start code begins inside a start-code-free unit that is followed by a four-byte start
/// code or by the end of the stream.
proof fn lemma_no_start_code_inside(u: Seq<u8>, r: Seq<u8>, k: int)
    requires
        free_of_start_codes(u),
        r.len() == 0 || (r.len() >= 4 && r[0] == 0 && r[1] == 0 && r[2] == 0 && r[3] == 1),
        4 <= k < 4 + u.len(),
    ensures
        !start_code_at(start_code4() + u + r, k),
{
    let b = start_code4() + u + r;
    let e = 4 + u.len() as int;
    assert(!start_code3_at(u, k - 4));
    assert(!start_code3_at(u, k - 3));
    if start_code3_at(b, k) {
        if k + 2 < e {
            assert(start_code3_at(u, k - 4));
        } else {
            assert(b[k + 2] == r[k + 2 - e]);
        }
    }
    if start_code4_at(b, k) {
        if k + 3 < e {
            assert(start_code3_at(u, k - 3));
        } else {
            assert(b[k + 3] == r[k + 3 - e]);
        }
    }
}

/// Law: an Annex B stream made by putting a four-byte start code before each NAL unit is
/// split by `find_nal_units_annex_b` into exactly those units, provided none of them holds
/// `00 00 01`.
pub proof fn lemma_find_units_of_joined_stream(units: Seq<Seq<u8>>)
    requires
        forall|i: int| 0 <= i < units.len() ==> free_of_start_codes(#[trigger] units[i]),
    ensures
        annex_b_units_from(annex_b_join(units), 0) == units,
    decreases units.len(),
{
    if units.len() == 0 {
        assert(annex_b_units_from(annex_b_join(units), 0) =~= units);
    } else {
        let u = units[0];
        let rest = units.drop_first();
        let r = annex_b_join(rest);
        let b = annex_b_join(units);
        let e = 4 + u.len() as int;
        assert(b =~= start_code4() + u + r);
        assert(free_of_start_codes(u));
        assert forall|i: int| 0 <= i < rest.len() implies free_of_start_codes(#[trigger] rest[i]) by {
            assert(rest[i] == units[i + 1]);
        }
        lemma_find_units_of_joined_stream(rest);
        if rest.len() > 0 {
            assert(r =~= start_code4() + rest[0] + annex_b_join(rest.drop_first()));
        }
        assert forall|k: int| 4 <= k < e implies !start_code_at(b, k) by {
            lemma_no_start_code_inside(u, r, k);
        }
        assert(start_code4_at(b, 0));
        lemma_next_start_code(b, 4);
        if rest.len() == 0 {
            assert(r.len() == 0);
            assert forall|k: int| 4 <= k implies !start_code_at(b, k) by {
                if k < e {
                    lemma_no_start_code_inside(u, r, k);
                }
            }
            assert(next_start_code(b, 4) is None);
            assert(b.subrange(4, b.len() as int) =~= u);
            assert(annex_b_units_from(b, 0) =~= units);
        } else {
            assert(start_code4_at(b, e));
            match next_start_code(b, 4) {
                Some(j) => {
                    if j < e {
                        assert(!start_code_at(b, j));
                    }
                    if j > e {
                        assert(!start_code_at(b, e));
                    }
                },
                None => {
                    assert(!start_code_at(b, e));
                },
            }
            assert(next_start_code(b, 4) == Some(e));
            assert(b.subrange(4, e) =~= u);
            lemma_units_shift(start_code4() + u, r, e);
            assert(annex_b_units_from(b, 0) == seq![u] + annex_b_units_from(b, e));
            assert(seq![u] + rest =~= units);
        }
    }
}

/// Law: no NAL unit found by `find_nal_units_annex_b` holds `00 00 01`.
pub proof fn lemma_found_units_free_of_start_codes(b: Seq<u8>, i: int)
    requires
        0 <= i,
    ensures
        forall|j: int|
            0 <= j < annex_b_units_from(b, i).len() ==> free_of_start_codes(
                #[trigger] annex_b_units_from(b, i)[j],
            ),
    decreases b.len() - i,
{
    let units = annex_b_units_from(b, i);
    if i + 3 > b.len() {
    } else if start_code_at(b, i) {
        let s = if start_code4_at(b, i) {
            i + 4
        } else {
            i + 3
        };
        lemma_next_start_code(b, s);
        let end = match next_start_code(b, s) {
            Some(n) => n,
            None => b.len() as int,
        };
        let u = b.subrange(s, end);
        assert forall|k: int| !start_code3_at(u, k) by {
            if start_code3_at(u, k) {
                assert(start_code3_at(b, s + k));
                assert(start_code_at(b, s + k));
            }
        }
        match next_start_code(b, s) {
            Some(n) => {
                lemma_found_units_free_of_start_codes(b, n);
                assert(units == seq![u] + annex_b_units_from(b, n));
                assert forall|j: int| 0 <= j < units.len() implies free_of_start_codes(
                    #[trigger] units[j],
                ) by {
                    if j > 0 {
                        assert(units[j] == annex_b_units_from(b, n)[j - 1]);
                    } else {
                        assert(units[j] == u);
                    }
                }
            },
            None => {
                assert(units == seq![u]);
                assert forall|j: int| 0 <= j < units.len() implies free_of_start_codes(
                    #[trigger] units[j],
                ) by {
                    assert(units[j] == u);
                }
            },
        }
    } else {
        lemma_found_units_free_of_start_codes(b, i + 1);
        assert(units == annex_b_units_from(b, i + 1));
    }
}

/// Scanning from `i` finds the same units as scanning from `j` when no start code begins in
/// between.
proof fn lemma_units_skip_to(b: Seq<u8>, i: int, j: int)
    requires
        0 <= i <= j,
        forall|k: int| i <= k < j ==> !start_code_at(b, k),
    ensures
        annex_b_units_from(b, i) == annex_b_units_from(b, j),
    decreases j - i,
{
    if i < j {
        lemma_units_skip_to(b, i + 1, j);
        assert(!start_code_at(b, i));
        if i + 3 > b.len() {
            assert(annex_b_units_from(b, j) =~= Seq::<Seq<u8>>::empty());
        }
    }
}

/// Law: the NAL header that `first_nal_header_after_start_code` reports is the first byte of
/// the first NAL unit that `find_nal_units_annex_b` finds, when that unit is not empty.
pub proof fn lemma_first_header_starts_first_unit(b: Seq<u8>)
    requires
        annex_b_units_from(b, 0).len() > 0,
        annex_b_units_from(b, 0)[0].len() > 0,
    ensures
        first_header_after_start_code(b) == Some(annex_b_units_from(b, 0)[0][0]),
{
    lemma_next_start_code(b, 0);
    match next_start_code(b, 0) {
        Some(i) => {
            lemma_units_skip_to(b, 0, i);
            let s = if start_code4_at(b, i) {
                i + 4
            } else {
                i + 3
            };
            lemma_next_start_code(b, s);
            let units = annex_b_units_from(b, i);
            match next_start_code(b, s) {
                Some(n) => {
                    assert(units[0] == b.subrange(s, n));
                },
                None => {
                    assert(units[0] == b.subrange(s, b.len() as int));
                },
            }
        },
        None => {
            lemma_units_skip_to(b, 0, b.len() as int);
            assert(annex_b_units_from(b, b.len() as int) =~= Seq::<Seq<u8>>::empty());
        },
    }
}

/// Law: the Annex B splitter finds no NAL unit exactly when the stream holds no start code.
pub proof fn lemma_no_units_iff_no_start_code(b: Seq<u8>)
    ensures
        annex_b_units_from(b, 0).len() == 0 <==> !holds_start_code(b),
{
    lemma_next_start_code(b, 0);
    lemma_start_code_means_three_byte_code(b);
    match next_start_code(b, 0) {
        Some(i) => {
            lemma_units_skip_to(b, 0, i);
            if start_code4_at(b, i) {
                assert(holds_start_code(b));
            } else {
                assert(start_code3_at(b, i));
            }
            let s = if start_code4_at(b, i) {
                i + 4
            } else {
                i + 3
            };
            match next_start_code(b, s) {
                Some(n) => {
                    lemma_next_start_code(b, s);
                    assert(annex_b_units_from(b, i) == seq![b.subrange(s, n)]
                        + annex_b_units_from(b, n));
                },
                None => {
                    assert(annex_b_units_from(b, i) == seq![b.subrange(s, b.len() as int)]);
                },
            }
        },
        None => {
            lemma_units_skip_to(b, 0, b.len() as int);
            assert(annex_b_units_from(b, b.len() as int) =~= Seq::<Seq<u8>>::empty());
            if holds_start_code(b) {
                let k = choose|k: int| start_code3_at(b, k);
                assert(start_code_at(b, k));
            }
        },
    }
}

/// Scanning for NAL headers from `i` finds the same headers as from `j` when no start code
/// begins in between.
proof fn lemma_headers_skip_to(b: Seq<u8>, i: int, j: int)
    requires
        0 <= i <= j,
        forall|k: int| i <= k < j ==> !start_code_at(b, k),
    ensures
        nal_headers_from(b, i) == nal_headers_from(b, j),
    decreases j - i,
{
    if i < j {
        lemma_headers_skip_to(b, i + 1, j);
        assert(!start_code_at(b, i));
        if i + 3 >= b.len() {
            assert(nal_headers_from(b, j) =~= Seq::<u8>::empty());
        }
    }
}

/// From `i` on, when no unit found is empty, the headers found are the units' first bytes.
proof fn lemma_headers_of_units_from(b: Seq<u8>, i: int)
    requires
        0 <= i,
        forall|k: int|
            0 <= k < annex_b_units_from(b, i).len() ==> (#[trigger] annex_b_units_from(b, i)[k]).len()
                > 0,
    ensures
        nal_headers_from(b, i) == annex_b_units_from(b, i).map_values(|u: Seq<u8>| u[0]),
    decreases b.len() - i,
{
    let units = annex_b_units_from(b, i);
    if i + 3 > b.len() {
        assert(units.map_values(|u: Seq<u8>| u[0]) =~= Seq::<u8>::empty());
    } else if start_code_at(b, i) {
        let s = if start_code4_at(b, i) {
            i + 4
        } else {
            i + 3
        };
        lemma_next_start_code(b, s);
        match next_start_code(b, s) {
            Some(n) => {
                let rest = annex_b_units_from(b, n);
                assert(units == seq![b.subrange(s, n)] + rest);
                assert(units[0].len() > 0);
                assert forall|k: int| 0 <= k < rest.len() implies (#[trigger] rest[k]).len() > 0 by {
                    assert(rest[k] == units[k + 1]);
                }
                lemma_headers_of_units_from(b, n);
                lemma_headers_skip_to(b, s + 1, n);
                assert(nal_headers_from(b, i) == seq![b[s]] + nal_headers_from(b, s + 1));
                assert(units.map_values(|u: Seq<u8>| u[0]) =~= seq![b[s]] + rest.map_values(
                    |u: Seq<u8>| u[0],
                ));
            },
            None => {
                assert(units == seq![b.subrange(s, b.len() as int)]);
                assert(units[0].len() > 0);
                lemma_headers_skip_to(b, s + 1, b.len() as int);
                assert(nal_headers_from(b, b.len() as int) =~= Seq::<u8>::empty());
                assert(nal_headers_from(b, i) == seq![b[s]] + nal_headers_from(b, s + 1));
                assert(units.map_values(|u: Seq<u8>| u[0]) =~= seq![b[s]]);
            },
        }
    } else {
        lemma_headers_of_units_from(b, i + 1);
        if i + 3 >= b.len() {
            assert(annex_b_units_from(b, i + 1) =~= Seq::<Seq<u8>>::empty());
            assert(units.map_values(|u: Seq<u8>| u[0]) =~= Seq::<u8>::empty());
        }
    }
}

/// Law: when no NAL unit that `find_nal_units_annex_b` finds is empty, `find_nal_headers`
/// gives exactly the first byte of each of those units, one per unit, in stream order.
pub proof fn lemma_headers_are_first_bytes_of_units(b: Seq<u8>)
    requires
        forall|k: int|
            0 <= k < annex_b_units_from(b, 0).len() ==> (#[trigger] annex_b_units_from(b, 0)[k]).len()
                > 0,
    ensures
        nal_headers_from(b, 0) == annex_b_units_from(b, 0).map_values(|u: Seq<u8>| u[0]),
{
    lemma_headers_of_units_from(b, 0);
}

} // verus!
