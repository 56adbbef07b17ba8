//! The mathematical model of a link store: a sequence of optional records,
//! indexed by handle, together with the canonical operations on it and the
//! Anum text form of a Link.
use vstd::prelude::*;

use crate::store::StoreError;

verus! {

/// The records of a store, indexed by handle: `None` for an unused slot,
/// `Some((start, end))` for a Link with its two poles.
pub type Links = Seq<Option<(u32, u32)>>;

/// Byte of the Anum token for ROOT, `(R, R)`.
pub const TOKEN_ROOT: u8 = 56;

/// Byte of the Anum token for a START self-closed Link `(X, child)`.
pub const TOKEN_START: u8 = 57;

/// Byte of the Anum token for an END self-closed Link `(child, X)`.
pub const TOKEN_END: u8 = 54;

/// Byte of the Anum token for an ordinary PAIR `(start, end)`.
pub const TOKEN_PAIR: u8 = 49;

/// One past the largest number of record slots a store can hold: handles are `u32`.
pub open spec fn slot_bound() -> int {
    0x1_0000_0000
}

pub open spec fn is_valid_in(links: Links, h: u32) -> bool {
    0 < h < links.len() && links[h as int] is Some
}

pub open spec fn poles_in(links: Links, h: u32) -> (u32, u32) {
    links[h as int]->0
}

pub open spec fn is_root_in(links: Links, h: u32) -> bool {
    is_valid_in(links, h) && poles_in(links, h).0 == h && poles_in(links, h).1 == h
}

/// `h` is the START self-closed Link over `child`: its record is `(h, child)`.
pub open spec fn is_start_form_of(links: Links, h: u32, child: u32) -> bool {
    is_valid_in(links, h) && poles_in(links, h) == (h, child) && child != h
}

/// `h` is the END self-closed Link over `child`: its record is `(child, h)`.
pub open spec fn is_end_form_of(links: Links, h: u32, child: u32) -> bool {
    is_valid_in(links, h) && poles_in(links, h) == (child, h) && child != h
}

/// `h` is an ordinary PAIR `(start, end)`: neither pole is `h` itself.
pub open spec fn is_pair_of(links: Links, h: u32, start: u32, end: u32) -> bool {
    is_valid_in(links, h) && poles_in(links, h) == (start, end) && start != h && end != h
}

/// The structural signature of a record: its Anum token and the children it names.
pub open spec fn shape(links: Links, h: u32) -> (u8, u32, u32) {
    let (s, e) = poles_in(links, h);
    if s == h && e == h {
        (TOKEN_ROOT, 0u32, 0u32)
    } else if s == h {
        (TOKEN_START, e, 0u32)
    } else if e == h {
        (TOKEN_END, s, 0u32)
    } else {
        (TOKEN_PAIR, s, e)
    }
}

/// Every record other than ROOT names only strictly older Links.
pub open spec fn record_well_founded(links: Links, h: int) -> bool {
    &&& links[h] is Some
    &&& {
        let (s, e) = links[h]->0;
        ||| (s == h && 1 <= e < h)
        ||| (e == h && 1 <= s < h)
        ||| (1 <= s < h && 1 <= e < h)
    }
}

/// No two distinct Links share a structural signature.
pub open spec fn canonical(links: Links) -> bool {
    forall|a: u32, b: u32|
        #![trigger shape(links, a), shape(links, b)]
        is_valid_in(links, a) && is_valid_in(links, b) && shape(links, a) == shape(links, b)
            ==> a == b
}

/// A well-formed record sequence: slot 0 unused, ROOT at handle 1, every
/// other record well-founded, signatures unique.
pub open spec fn links_wf(links: Links) -> bool {
    &&& 2 <= links.len() <= slot_bound()
    &&& links[0] is None
    &&& links[1] == Some((1u32, 1u32))
    &&& forall|h: int| 2 <= h < links.len() ==> #[trigger] record_well_founded(links, h)
    &&& canonical(links)
}

/// `next` keeps every record of `links` and only appends.
pub open spec fn extends(links: Links, next: Links) -> bool {
    links.len() <= next.len() && next.subrange(0, links.len() as int) == links
}

/// No further Link can be allocated.
pub open spec fn at_capacity(links: Links, limit: Option<usize>) -> bool {
    ||| links.len() >= slot_bound()
    ||| (limit matches Some(l) && links.len() - 1 >= l)
}

/// Result of canonical PAIR construction on the model.
pub open spec fn ensure_pair_spec(links: Links, limit: Option<usize>, start: u32, end: u32) -> (
    Result<u32, StoreError>,
    Links,
) {
    if !is_valid_in(links, start) {
        (Err(StoreError::UnknownHandle(start)), links)
    } else if !is_valid_in(links, end) {
        (Err(StoreError::UnknownHandle(end)), links)
    } else if exists|h: u32| is_pair_of(links, h, start, end) {
        (Ok(choose|h: u32| is_pair_of(links, h, start, end)), links)
    } else if at_capacity(links, limit) {
        (Err(StoreError::CapacityExceeded), links)
    } else {
        (Ok(links.len() as u32), links.push(Some((start, end))))
    }
}

/// Result of canonical START self-closed construction on the model.
pub open spec fn ensure_start_spec(links: Links, limit: Option<usize>, child: u32) -> (
    Result<u32, StoreError>,
    Links,
) {
    if !is_valid_in(links, child) {
        (Err(StoreError::UnknownHandle(child)), links)
    } else if exists|h: u32| is_start_form_of(links, h, child) {
        (Ok(choose|h: u32| is_start_form_of(links, h, child)), links)
    } else if at_capacity(links, limit) {
        (Err(StoreError::CapacityExceeded), links)
    } else {
        (Ok(links.len() as u32), links.push(Some((links.len() as u32, child))))
    }
}

/// Result of canonical END self-closed construction on the model.
pub open spec fn ensure_end_spec(links: Links, limit: Option<usize>, child: u32) -> (
    Result<u32, StoreError>,
    Links,
) {
    if !is_valid_in(links, child) {
        (Err(StoreError::UnknownHandle(child)), links)
    } else if exists|h: u32| is_end_form_of(links, h, child) {
        (Ok(choose|h: u32| is_end_form_of(links, h, child)), links)
    } else if at_capacity(links, limit) {
        (Err(StoreError::CapacityExceeded), links)
    } else {
        (Ok(links.len() as u32), links.push(Some((child, links.len() as u32))))
    }
}

/// The handles whose START pole is `x`, among the first `n` slots, oldest first.
pub open spec fn start_list(links: Links, x: u32, n: nat) -> Seq<u32>
    decreases n,
{
    if n == 0 {
        Seq::empty()
    } else {
        let h = (n - 1) as nat;
        let prefix = start_list(links, x, h);
        if links[h as int] is Some && (links[h as int]->0).0 == x {
            prefix.push(h as u32)
        } else {
            prefix
        }
    }
}

/// The handles whose END pole is `x`, among the first `n` slots, oldest first.
pub open spec fn end_list(links: Links, x: u32, n: nat) -> Seq<u32>
    decreases n,
{
    if n == 0 {
        Seq::empty()
    } else {
        let h = (n - 1) as nat;
        let prefix = end_list(links, x, h);
        if links[h as int] is Some && (links[h as int]->0).1 == x {
            prefix.push(h as u32)
        } else {
            prefix
        }
    }
}

/// All Links with START pole `x`, in allocation order.
pub open spec fn start_incidence_of(links: Links, x: u32) -> Seq<u32> {
    start_list(links, x, links.len())
}

/// All Links with END pole `x`, in allocation order.
pub open spec fn end_incidence_of(links: Links, x: u32) -> Seq<u32> {
    end_list(links, x, links.len())
}

/// The Anum text of a Link in a well-formed store.
pub open spec fn anum(links: Links, h: u32) -> Seq<char>
    decreases h,
{
    if !is_valid_in(links, h) {
        Seq::empty()
    } else {
        let (s, e) = poles_in(links, h);
        if s == h && e == h {
            seq!['8']
        } else if s == h {
            if e < h {
                seq!['9'] + anum(links, e)
            } else {
                Seq::empty()
            }
        } else if e == h {
            if s < h {
                seq!['6'] + anum(links, s)
            } else {
                Seq::empty()
            }
        } else if s < h && e < h {
            seq!['1'] + anum(links, s) + anum(links, e)
        } else {
            Seq::empty()
        }
    }
}

/// Anum bytes read as characters.
pub open spec fn chars_of(bytes: Seq<u8>) -> Seq<char> {
    bytes.map_values(|b: u8| b as char)
}

/// Appending a record leaves every older handle as it was.
pub proof fn lemma_push_keeps(links: Links, r: Option<(u32, u32)>)
    ensures
        forall|a: u32|
            #![trigger is_valid_in(links.push(r), a)]
            a < links.len() ==> is_valid_in(links.push(r), a) == is_valid_in(links, a),
        forall|a: u32|
            #![trigger poles_in(links.push(r), a)]
            a < links.len() ==> poles_in(links.push(r), a) == poles_in(links, a),
        forall|a: u32|
            #![trigger shape(links.push(r), a)]
            a < links.len() ==> shape(links.push(r), a) == shape(links, a),
        extends(links, links.push(r)),
{
    assert(links.push(r).subrange(0, links.len() as int) =~= links);
}

/// Appending a well-founded record with a fresh signature keeps the sequence well-formed.
pub proof fn lemma_push_wf(links: Links, s: u32, e: u32)
    requires
        links_wf(links),
        links.len() < slot_bound(),
        record_well_founded(links.push(Some((s, e))), links.len() as int),
        forall|a: u32|
            is_valid_in(links, a) ==> #[trigger] shape(links, a) != shape(
                links.push(Some((s, e))),
                links.len() as u32,
            ),
    ensures
        links_wf(links.push(Some((s, e)))),
{
    let next = links.push(Some((s, e)));
    let n = links.len() as u32;
    lemma_push_keeps(links, Some((s, e)));
    assert forall|h: int| 2 <= h < next.len() implies #[trigger] record_well_founded(next, h) by {
        if h < links.len() {
            assert(record_well_founded(links, h));
        }
    }
    assert forall|a: u32, b: u32|
        #![trigger shape(next, a), shape(next, b)]
        is_valid_in(next, a) && is_valid_in(next, b) && shape(next, a) == shape(next, b) implies a
        == b by {
        if a < n && b < n {
            assert(shape(links, a) == shape(links, b));
        } else if a < n {
            assert(shape(links, a) != shape(next, n));
        } else if b < n {
            assert(shape(links, b) != shape(next, n));
        }
    }
}

pub proof fn lemma_insert_len_bound(visiting: Set<u32>, h: u32)
    requires
        !visiting.contains(h),
    ensures
        visiting.finite(),
        visiting.insert(h).finite(),
        visiting.insert(h).len() == visiting.len() + 1,
        visiting.insert(h).len() <= slot_bound(),
{
    let full = Set::<u32>::full();
    <u32 as vstd::set_lib::FiniteFull>::full_properties();
    <u32 as vstd::set_lib::FiniteRange>::range_properties(0u32, u32::MAX);
    vstd::set_lib::lemma_set_subset_finite(full, visiting);
    assert(full == Set::<u32>::range(0u32, u32::MAX).insert(u32::MAX));
    assert(full.len() == slot_bound());
    vstd::set_lib::lemma_len_subset(visiting.insert(h), full);
}

/// Export of a Link on any record sequence: a depth-first walk that refuses
/// a Link met again on the current path.
pub open spec fn export_from(links: Links, h: u32, visiting: Set<u32>) -> Result<
    Seq<char>,
    StoreError,
>
    decreases slot_bound() - visiting.len(),
{
    if !(h < links.len() && links[h as int] is Some) {
        Err(StoreError::UnknownHandle(h))
    } else {
        let (s, e) = poles_in(links, h);
        if s == h && e == h {
            Ok(seq!['8'])
        } else if visiting.contains(h) {
            Err(StoreError::NonWellFounded(h))
        } else {
            let inner = visiting.insert(h);
            proof {
                lemma_insert_len_bound(visiting, h);
            }
            if s == h {
                match export_from(links, e, inner) {
                    Ok(t) => Ok(seq!['9'] + t),
                    Err(x) => Err(x),
                }
            } else if e == h {
                match export_from(links, s, inner) {
                    Ok(t) => Ok(seq!['6'] + t),
                    Err(x) => Err(x),
                }
            } else {
                match export_from(links, s, inner) {
                    Ok(a) => match export_from(links, e, inner) {
                        Ok(b) => Ok(seq!['1'] + a + b),
                        Err(x) => Err(x),
                    },
                    Err(x) => Err(x),
                }
            }
        }
    }
}

} // verus!

verus! {

/// In a well-formed store every record names valid Links: older ones, or itself.
pub proof fn lemma_poles_valid(links: Links, h: u32)
    requires
        links_wf(links),
        is_valid_in(links, h),
    ensures
        is_valid_in(links, poles_in(links, h).0),
        is_valid_in(links, poles_in(links, h).1),
        poles_in(links, h).0 <= h,
        poles_in(links, h).1 <= h,
        h != 1 ==> poles_in(links, h).0 < h || poles_in(links, h).1 < h,
{
    let (s, e) = poles_in(links, h);
    if h >= 2 {
        assert(record_well_founded(links, h as int));
        if s >= 2 {
            assert(record_well_founded(links, s as int));
        }
        if e >= 2 {
            assert(record_well_founded(links, e as int));
        }
    }
}

/// In a well-formed store the export walk never meets a Link twice and
/// yields the Anum text.
pub proof fn lemma_export_wf(links: Links, h: u32, visiting: Set<u32>)
    requires
        links_wf(links),
        is_valid_in(links, h),
        forall|v: u32| visiting.contains(v) ==> v > h,
    ensures
        export_from(links, h, visiting) == Ok::<Seq<char>, StoreError>(anum(links, h)),
    decreases h,
{
    let (s, e) = poles_in(links, h);
    if s == h && e == h {
    } else {
        assert(record_well_founded(links, h as int));
        lemma_poles_valid(links, h);
        assert(!visiting.contains(h));
        let inner = visiting.insert(h);
        if s == h {
            lemma_export_wf(links, e, inner);
        } else if e == h {
            lemma_export_wf(links, s, inner);
        } else {
            lemma_export_wf(links, s, inner);
            lemma_export_wf(links, e, inner);
        }
    }
}

} // verus!

verus! {

/// Reading one Anum term at `pos` while building it canonically in the
/// store: the handle (or the first error), the records afterwards, and the
/// position after the term.
pub open spec fn parse_term(links: Links, limit: Option<usize>, bytes: Seq<u8>, pos: int) -> (
    Result<u32, StoreError>,
    Links,
    int,
)
    decreases bytes.len() - pos,
{
    if pos < 0 || pos >= bytes.len() {
        (Err(StoreError::TruncatedAnum), links, pos)
    } else {
        let token = bytes[pos];
        if token == TOKEN_ROOT {
            (Ok(1u32), links, pos + 1)
        } else if token == TOKEN_START {
            let (r, l1, p1) = parse_term(links, limit, bytes, pos + 1);
            match r {
                Ok(child) => {
                    let (r2, l2) = ensure_start_spec(l1, limit, child);
                    (r2, l2, p1)
                },
                Err(e) => (Err(e), l1, p1),
            }
        } else if token == TOKEN_END {
            let (r, l1, p1) = parse_term(links, limit, bytes, pos + 1);
            match r {
                Ok(child) => {
                    let (r2, l2) = ensure_end_spec(l1, limit, child);
                    (r2, l2, p1)
                },
                Err(e) => (Err(e), l1, p1),
            }
        } else if token == TOKEN_PAIR {
            let (r, l1, p1) = parse_term(links, limit, bytes, pos + 1);
            match r {
                Ok(start) => {
                    if p1 <= pos || p1 > bytes.len() {
                        // unreachable: a term read at `pos` ends after `pos` and within `bytes`
                        (Err(StoreError::TruncatedAnum), l1, p1)
                    } else {
                        let (r2, l2, p2) = parse_term(l1, limit, bytes, p1);
                        match r2 {
                            Ok(end) => {
                                let (r3, l3) = ensure_pair_spec(l2, limit, start, end);
                                (r3, l3, p2)
                            },
                            Err(e) => (Err(e), l2, p2),
                        }
                    }
                },
                Err(e) => (Err(e), l1, p1),
            }
        } else {
            (Err(StoreError::InvalidToken(token as char)), links, pos + 1)
        }
    }
}

/// Whole-Anum import: the handle of the term, or the first error; the
/// records change only on success.
pub open spec fn import_spec(links: Links, limit: Option<usize>, bytes: Seq<u8>) -> (
    Result<u32, StoreError>,
    Links,
) {
    if bytes.len() == 0 {
        (Err(StoreError::EmptyAnum), links)
    } else {
        let (r, staged, end) = parse_term(links, limit, bytes, 0);
        match r {
            Err(e) => (Err(e), links),
            Ok(h) => if end != bytes.len() {
                (Err(StoreError::TrailingInput(end as usize)), links)
            } else {
                (Ok(h), staged)
            },
        }
    }
}

/// A term read at `pos` ends after `pos` and within the input.
pub proof fn lemma_parse_advances(links: Links, limit: Option<usize>, bytes: Seq<u8>, pos: int)
    requires
        0 <= pos <= bytes.len(),
    ensures
        pos <= parse_term(links, limit, bytes, pos).2 <= bytes.len(),
        pos < bytes.len() ==> pos < parse_term(links, limit, bytes, pos).2,
    decreases bytes.len() - pos,
{
    if pos < bytes.len() {
        let token = bytes[pos];
        if token == TOKEN_START || token == TOKEN_END || token == TOKEN_PAIR {
            lemma_parse_advances(links, limit, bytes, pos + 1);
            if token == TOKEN_PAIR {
                let (r, l1, p1) = parse_term(links, limit, bytes, pos + 1);
                if r is Ok {
                    lemma_parse_advances(l1, limit, bytes, p1);
                }
            }
        }
    }
}

} // verus!

verus! {

/// The Anum text of an existing Link does not change when records are appended.
pub proof fn lemma_anum_extends(links: Links, next: Links, h: u32)
    requires
        links_wf(links),
        extends(links, next),
        is_valid_in(links, h),
    ensures
        is_valid_in(next, h),
        poles_in(next, h) == poles_in(links, h),
        anum(next, h) == anum(links, h),
    decreases h,
{
    assert(next[h as int] == next.subrange(0, links.len() as int)[h as int]);
    let (s, e) = poles_in(links, h);
    lemma_poles_valid(links, h);
    if s != h {
        lemma_anum_extends(links, next, s);
    }
    if e != h {
        lemma_anum_extends(links, next, e);
    }
}

/// Canonical PAIR construction keeps the store well-formed, only appends,
/// and on success yields the PAIR itself.
pub proof fn lemma_ensure_pair_spec(links: Links, limit: Option<usize>, start: u32, end: u32)
    requires
        links_wf(links),
    ensures
        ({
            let (r, next) = ensure_pair_spec(links, limit, start, end);
            &&& links_wf(next)
            &&& extends(links, next)
            &&& (r is Err ==> next == links)
            &&& (r matches Ok(h) ==> is_pair_of(next, h, start, end))
            &&& (r matches Ok(h) ==> anum(next, h) == seq!['1'] + anum(links, start) + anum(
                links,
                end,
            ))
        }),
{
    let (r, next) = ensure_pair_spec(links, limit, start, end);
    assert(links.subrange(0, links.len() as int) =~= links);
    if is_valid_in(links, start) && is_valid_in(links, end) {
        if exists|h: u32| is_pair_of(links, h, start, end) {
            let h = choose|h: u32| is_pair_of(links, h, start, end);
            lemma_poles_valid(links, h);
        } else if !at_capacity(links, limit) {
            let h = links.len() as u32;
            lemma_push_keeps(links, Some((start, end)));
            assert forall|a: u32| is_valid_in(links, a) implies #[trigger] shape(links, a) != shape(
                next,
                h,
            ) by {
                if shape(links, a) == shape(next, h) {
                    assert(is_pair_of(links, a, start, end));
                }
            }
            lemma_push_wf(links, start, end);
            lemma_anum_extends(links, next, start);
            lemma_anum_extends(links, next, end);
        }
    }
}

/// Canonical START self-closed construction keeps the store well-formed,
/// only appends, and on success yields that Link.
pub proof fn lemma_ensure_start_spec(links: Links, limit: Option<usize>, child: u32)
    requires
        links_wf(links),
    ensures
        ({
            let (r, next) = ensure_start_spec(links, limit, child);
            &&& links_wf(next)
            &&& extends(links, next)
            &&& (r is Err ==> next == links)
            &&& (r matches Ok(h) ==> is_start_form_of(next, h, child))
            &&& (r matches Ok(h) ==> anum(next, h) == seq!['9'] + anum(links, child))
        }),
{
    let (r, next) = ensure_start_spec(links, limit, child);
    assert(links.subrange(0, links.len() as int) =~= links);
    if is_valid_in(links, child) {
        if exists|h: u32| is_start_form_of(links, h, child) {
            let h = choose|h: u32| is_start_form_of(links, h, child);
            lemma_poles_valid(links, h);
        } else if !at_capacity(links, limit) {
            let h = links.len() as u32;
            lemma_push_keeps(links, Some((h, child)));
            assert forall|a: u32| is_valid_in(links, a) implies #[trigger] shape(links, a) != shape(
                next,
                h,
            ) by {
                if shape(links, a) == shape(next, h) {
                    assert(is_start_form_of(links, a, child));
                }
            }
            lemma_push_wf(links, h, child);
            lemma_anum_extends(links, next, child);
        }
    }
}

/// Canonical END self-closed construction keeps the store well-formed,
/// only appends, and on success yields that Link.
pub proof fn lemma_ensure_end_spec(links: Links, limit: Option<usize>, child: u32)
    requires
        links_wf(links),
    ensures
        ({
            let (r, next) = ensure_end_spec(links, limit, child);
            &&& links_wf(next)
            &&& extends(links, next)
            &&& (r is Err ==> next == links)
            &&& (r matches Ok(h) ==> is_end_form_of(next, h, child))
            &&& (r matches Ok(h) ==> anum(next, h) == seq!['6'] + anum(links, child))
        }),
{
    let (r, next) = ensure_end_spec(links, limit, child);
    assert(links.subrange(0, links.len() as int) =~= links);
    if is_valid_in(links, child) {
        if exists|h: u32| is_end_form_of(links, h, child) {
            let h = choose|h: u32| is_end_form_of(links, h, child);
            lemma_poles_valid(links, h);
        } else if !at_capacity(links, limit) {
            let h = links.len() as u32;
            lemma_push_keeps(links, Some((child, h)));
            assert forall|a: u32| is_valid_in(links, a) implies #[trigger] shape(links, a) != shape(
                next,
                h,
            ) by {
                if shape(links, a) == shape(next, h) {
                    assert(is_end_form_of(links, a, child));
                }
            }
            lemma_push_wf(links, child, h);
            lemma_anum_extends(links, next, child);
        }
    }
}

} // verus!

verus! {

pub proof fn lemma_extends_trans(a: Links, b: Links, c: Links)
    requires
        extends(a, b),
        extends(b, c),
    ensures
        extends(a, c),
{
    assert(c.subrange(0, a.len() as int) =~= c.subrange(0, b.len() as int).subrange(0, a.len() as int));
}

pub proof fn lemma_chars_of_split(bytes: Seq<u8>, i: int, j: int, k: int)
    requires
        0 <= i <= j <= k <= bytes.len(),
    ensures
        chars_of(bytes.subrange(i, k)) == chars_of(bytes.subrange(i, j)) + chars_of(
            bytes.subrange(j, k),
        ),
{
    assert(chars_of(bytes.subrange(i, k)) =~= chars_of(bytes.subrange(i, j)) + chars_of(
        bytes.subrange(j, k),
    ));
}

/// A successful parse builds a Link whose Anum text is exactly the bytes it read.
pub proof fn lemma_parse_builds(links: Links, limit: Option<usize>, bytes: Seq<u8>, pos: int)
    requires
        links_wf(links),
        0 <= pos <= bytes.len(),
    ensures
        ({
            let (r, next, end) = parse_term(links, limit, bytes, pos);
            &&& links_wf(next)
            &&& extends(links, next)
            &&& (r matches Ok(h) ==> is_valid_in(next, h) && anum(next, h) == chars_of(
                bytes.subrange(pos, end),
            ))
        }),
    decreases bytes.len() - pos,
{
    let (r, next, end) = parse_term(links, limit, bytes, pos);
    assert(links.subrange(0, links.len() as int) =~= links);
    lemma_parse_advances(links, limit, bytes, pos);
    if pos < bytes.len() {
        let token = bytes[pos];
        if token == TOKEN_ROOT {
            assert(chars_of(bytes.subrange(pos, pos + 1)) =~= seq![token as char]);
        } else if token == TOKEN_START || token == TOKEN_END || token == TOKEN_PAIR {
            let (r1, l1, p1) = parse_term(links, limit, bytes, pos + 1);
            lemma_parse_builds(links, limit, bytes, pos + 1);
            lemma_parse_advances(links, limit, bytes, pos + 1);
            assert(chars_of(bytes.subrange(pos, pos + 1)) =~= seq![token as char]);
            if let Ok(c) = r1 {
                if token == TOKEN_START {
                    lemma_ensure_start_spec(l1, limit, c);
                    lemma_extends_trans(links, l1, next);
                    lemma_chars_of_split(bytes, pos, pos + 1, p1);
                } else if token == TOKEN_END {
                    lemma_ensure_end_spec(l1, limit, c);
                    lemma_extends_trans(links, l1, next);
                    lemma_chars_of_split(bytes, pos, pos + 1, p1);
                } else {
                    let (r2, l2, p2) = parse_term(l1, limit, bytes, p1);
                    lemma_parse_builds(l1, limit, bytes, p1);
                    lemma_parse_advances(l1, limit, bytes, p1);
                    lemma_extends_trans(links, l1, l2);
                    if let Ok(d) = r2 {
                        lemma_anum_extends(l1, l2, c);
                        lemma_ensure_pair_spec(l2, limit, c, d);
                        lemma_extends_trans(links, l2, next);
                        lemma_chars_of_split(bytes, pos, pos + 1, p1);
                        lemma_chars_of_split(bytes, pos + 1, p1, p2);
                        lemma_chars_of_split(bytes, pos, p1, p2);
                    }
                }
            }
        }
    }
}

} // verus!

verus! {

pub proof fn lemma_forms_extend(links: Links, next: Links, h: u32)
    requires
        links_wf(links),
        extends(links, next),
        is_valid_in(links, h),
    ensures
        is_valid_in(next, h),
        poles_in(next, h) == poles_in(links, h),
        shape(next, h) == shape(links, h),
{
    assert(next[h as int] == next.subrange(0, links.len() as int)[h as int]);
}

/// A PAIR already present is found again, unchanged, in any later well-formed store.
pub proof fn lemma_ensure_pair_stable(
    links: Links,
    next: Links,
    limit: Option<usize>,
    h: u32,
    start: u32,
    end: u32,
)
    requires
        links_wf(links),
        links_wf(next),
        extends(links, next),
        is_pair_of(links, h, start, end),
    ensures
        ensure_pair_spec(next, limit, start, end) == (Ok::<u32, StoreError>(h), next),
{
    lemma_poles_valid(links, h);
    lemma_forms_extend(links, next, h);
    lemma_forms_extend(links, next, start);
    lemma_forms_extend(links, next, end);
    assert(is_pair_of(next, h, start, end));
    let c = choose|c: u32| is_pair_of(next, c, start, end);
    assert(shape(next, c) == shape(next, h));
}

pub proof fn lemma_ensure_start_stable(
    links: Links,
    next: Links,
    limit: Option<usize>,
    h: u32,
    child: u32,
)
    requires
        links_wf(links),
        links_wf(next),
        extends(links, next),
        is_start_form_of(links, h, child),
    ensures
        ensure_start_spec(next, limit, child) == (Ok::<u32, StoreError>(h), next),
{
    lemma_poles_valid(links, h);
    lemma_forms_extend(links, next, h);
    lemma_forms_extend(links, next, child);
    assert(is_start_form_of(next, h, child));
    let c = choose|c: u32| is_start_form_of(next, c, child);
    assert(shape(next, c) == shape(next, h));
}

pub proof fn lemma_ensure_end_stable(
    links: Links,
    next: Links,
    limit: Option<usize>,
    h: u32,
    child: u32,
)
    requires
        links_wf(links),
        links_wf(next),
        extends(links, next),
        is_end_form_of(links, h, child),
    ensures
        ensure_end_spec(next, limit, child) == (Ok::<u32, StoreError>(h), next),
{
    lemma_poles_valid(links, h);
    lemma_forms_extend(links, next, h);
    lemma_forms_extend(links, next, child);
    assert(is_end_form_of(next, h, child));
    let c = choose|c: u32| is_end_form_of(next, c, child);
    assert(shape(next, c) == shape(next, h));
}

/// Once a term has been read successfully, reading it again in any later
/// well-formed store finds the same Link and allocates nothing.
pub proof fn lemma_parse_stable(
    links: Links,
    limit: Option<usize>,
    bytes: Seq<u8>,
    pos: int,
    later: Links,
    later_limit: Option<usize>,
)
    requires
        links_wf(links),
        0 <= pos <= bytes.len(),
        parse_term(links, limit, bytes, pos).0 is Ok,
        links_wf(later),
        extends(parse_term(links, limit, bytes, pos).1, later),
    ensures
        parse_term(later, later_limit, bytes, pos) == (
            parse_term(links, limit, bytes, pos).0,
            later,
            parse_term(links, limit, bytes, pos).2,
        ),
    decreases bytes.len() - pos,
{
    let (r, next, end) = parse_term(links, limit, bytes, pos);
    lemma_parse_advances(links, limit, bytes, pos);
    let token = bytes[pos];
    if token == TOKEN_START || token == TOKEN_END || token == TOKEN_PAIR {
        let (r1, l1, p1) = parse_term(links, limit, bytes, pos + 1);
        lemma_parse_builds(links, limit, bytes, pos + 1);
        lemma_parse_advances(links, limit, bytes, pos + 1);
        lemma_parse_advances(later, later_limit, bytes, pos + 1);
        let c = r1->Ok_0;
        if token == TOKEN_START {
            lemma_ensure_start_spec(l1, limit, c);
            lemma_extends_trans(l1, next, later);
            lemma_parse_stable(links, limit, bytes, pos + 1, later, later_limit);
            lemma_ensure_start_stable(next, later, later_limit, r->Ok_0, c);
        } else if token == TOKEN_END {
            lemma_ensure_end_spec(l1, limit, c);
            lemma_extends_trans(l1, next, later);
            lemma_parse_stable(links, limit, bytes, pos + 1, later, later_limit);
            lemma_ensure_end_stable(next, later, later_limit, r->Ok_0, c);
        } else {
            let (r2, l2, p2) = parse_term(l1, limit, bytes, p1);
            lemma_parse_builds(l1, limit, bytes, p1);
            let d = r2->Ok_0;
            lemma_ensure_pair_spec(l2, limit, c, d);
            lemma_extends_trans(l2, next, later);
            lemma_extends_trans(l1, l2, later);
            lemma_parse_stable(links, limit, bytes, pos + 1, later, later_limit);
            lemma_parse_stable(l1, limit, bytes, p1, later, later_limit);
            lemma_ensure_pair_stable(next, later, later_limit, r->Ok_0, c, d);
        }
    }
}

} // verus!

verus! {

pub proof fn lemma_anum_head(links: Links, h: u32)
    requires
        links_wf(links),
        is_valid_in(links, h),
    ensures
        anum(links, h).len() >= 1,
        anum(links, h)[0] == '8' <==> shape(links, h).0 == TOKEN_ROOT,
        anum(links, h)[0] == '9' <==> shape(links, h).0 == TOKEN_START,
        anum(links, h)[0] == '6' <==> shape(links, h).0 == TOKEN_END,
        anum(links, h)[0] == '1' <==> shape(links, h).0 == TOKEN_PAIR,
        shape(links, h).0 == TOKEN_START ==> anum(links, h) == seq!['9'] + anum(
            links,
            shape(links, h).1,
        ),
        shape(links, h).0 == TOKEN_END ==> anum(links, h) == seq!['6'] + anum(
            links,
            shape(links, h).1,
        ),
        shape(links, h).0 == TOKEN_PAIR ==> anum(links, h) == seq!['1'] + anum(
            links,
            shape(links, h).1,
        ) + anum(links, shape(links, h).2),
        shape(links, h).0 == TOKEN_ROOT ==> anum(links, h) == seq!['8'],
        shape(links, h).0 != TOKEN_ROOT ==> shape(links, h).1 < h && is_valid_in(
            links,
            shape(links, h).1,
        ),
        shape(links, h).0 == TOKEN_PAIR ==> shape(links, h).2 < h && is_valid_in(
            links,
            shape(links, h).2,
        ),
{
    lemma_poles_valid(links, h);
    if h >= 2 {
        assert(record_well_founded(links, h as int));
    }
}

/// No Anum text is a proper prefix of another: the grammar is prefix-free.
pub proof fn lemma_anum_prefix_free(links: Links, x: u32, y: u32, rest_x: Seq<char>, rest_y: Seq<char>)
    requires
        links_wf(links),
        is_valid_in(links, x),
        is_valid_in(links, y),
        anum(links, x) + rest_x == anum(links, y) + rest_y,
    ensures
        anum(links, x) == anum(links, y),
        rest_x == rest_y,
    decreases x + y,
{
    lemma_anum_head(links, x);
    lemma_anum_head(links, y);
    let ax = anum(links, x);
    let ay = anum(links, y);
    assert((ax + rest_x)[0] == ax[0]);
    assert((ay + rest_y)[0] == ay[0]);
    let (tx, cx, dx) = shape(links, x);
    let (ty, cy, dy) = shape(links, y);
    if tx == TOKEN_ROOT {
        assert(ty == TOKEN_ROOT);
        assert(rest_x =~= (ax + rest_x).subrange(1, (ax + rest_x).len() as int));
        assert(rest_y =~= (ay + rest_y).subrange(1, (ay + rest_y).len() as int));
    } else if tx == TOKEN_START || tx == TOKEN_END {
        assert(ty == tx);
        let tail_x = (ax + rest_x).subrange(1, (ax + rest_x).len() as int);
        let tail_y = (ay + rest_y).subrange(1, (ay + rest_y).len() as int);
        assert(tail_x =~= anum(links, cx) + rest_x);
        assert(tail_y =~= anum(links, cy) + rest_y);
        lemma_anum_prefix_free(links, cx, cy, rest_x, rest_y);
    } else {
        assert(ty == TOKEN_PAIR);
        let tail_x = (ax + rest_x).subrange(1, (ax + rest_x).len() as int);
        let tail_y = (ay + rest_y).subrange(1, (ay + rest_y).len() as int);
        assert(tail_x =~= anum(links, cx) + (anum(links, dx) + rest_x));
        assert(tail_y =~= anum(links, cy) + (anum(links, dy) + rest_y));
        lemma_anum_prefix_free(links, cx, cy, anum(links, dx) + rest_x, anum(links, dy) + rest_y);
        lemma_anum_prefix_free(links, dx, dy, rest_x, rest_y);
    }
}

/// In a well-formed store the Anum text identifies the Link: two handles
/// with the same text are the same handle.
pub proof fn lemma_anum_injective(links: Links, a: u32, b: u32)
    requires
        links_wf(links),
        is_valid_in(links, a),
        is_valid_in(links, b),
        anum(links, a) == anum(links, b),
    ensures
        a == b,
    decreases a + b,
{
    lemma_anum_head(links, a);
    lemma_anum_head(links, b);
    let (ta, ca, da) = shape(links, a);
    let (tb, cb, db) = shape(links, b);
    assert(ta == tb);
    if ta == TOKEN_START || ta == TOKEN_END {
        assert(anum(links, ca) =~= anum(links, a).subrange(1, anum(links, a).len() as int));
        assert(anum(links, cb) =~= anum(links, b).subrange(1, anum(links, b).len() as int));
        lemma_anum_injective(links, ca, cb);
    } else if ta == TOKEN_PAIR {
        let tail_a = anum(links, a).subrange(1, anum(links, a).len() as int);
        let tail_b = anum(links, b).subrange(1, anum(links, b).len() as int);
        assert(tail_a =~= anum(links, ca) + anum(links, da));
        assert(tail_b =~= anum(links, cb) + anum(links, db));
        lemma_anum_prefix_free(links, ca, cb, anum(links, da), anum(links, db));
        lemma_anum_injective(links, ca, cb);
        lemma_anum_injective(links, da, db);
    }
    assert(shape(links, a) == shape(links, b));
}

} // verus!

verus! {

pub proof fn lemma_start_list_contains(links: Links, x: u32, n: nat, h: u32)
    requires
        n <= links.len(),
        links.len() <= slot_bound(),
    ensures
        start_list(links, x, n).contains(h) <==> (h < n && links[h as int] is Some && (
        links[h as int]->0).0 == x),
    decreases n,
{
    if n > 0 {
        lemma_start_list_contains(links, x, (n - 1) as nat, h);
        let prefix = start_list(links, x, (n - 1) as nat);
        let k = (n - 1) as nat;
        if links[k as int] is Some && (links[k as int]->0).0 == x {
            assert(start_list(links, x, n) == prefix.push(k as u32));
            assert(prefix.push(k as u32)[prefix.len() as int] == k as u32);
            if prefix.push(k as u32).contains(h) {
                let i = choose|i: int| 0 <= i < prefix.push(k as u32).len() && #[trigger] prefix.push(k as u32)[i] == h;
                if i < prefix.len() {
                    assert(prefix[i] == h);
                }
            }
            if h < n && h != k && links[h as int] is Some && (links[h as int]->0).0 == x {
                let i = choose|i: int| 0 <= i < prefix.len() && #[trigger] prefix[i] == h;
                assert(prefix.push(k as u32)[i] == h);
            }
        }
    }
}

pub proof fn lemma_end_list_contains(links: Links, x: u32, n: nat, h: u32)
    requires
        n <= links.len(),
        links.len() <= slot_bound(),
    ensures
        end_list(links, x, n).contains(h) <==> (h < n && links[h as int] is Some && (
        links[h as int]->0).1 == x),
    decreases n,
{
    if n > 0 {
        lemma_end_list_contains(links, x, (n - 1) as nat, h);
        let prefix = end_list(links, x, (n - 1) as nat);
        let k = (n - 1) as nat;
        if links[k as int] is Some && (links[k as int]->0).1 == x {
            assert(end_list(links, x, n) == prefix.push(k as u32));
            assert(prefix.push(k as u32)[prefix.len() as int] == k as u32);
            if prefix.push(k as u32).contains(h) {
                let i = choose|i: int| 0 <= i < prefix.push(k as u32).len() && #[trigger] prefix.push(k as u32)[i] == h;
                if i < prefix.len() {
                    assert(prefix[i] == h);
                }
            }
            if h < n && h != k && links[h as int] is Some && (links[h as int]->0).1 == x {
                let i = choose|i: int| 0 <= i < prefix.len() && #[trigger] prefix[i] == h;
                assert(prefix.push(k as u32)[i] == h);
            }
        }
    }
}

} // verus!
