//! Laws of the link store, stated over its record model.
use vstd::prelude::*;

use crate::model::{
    anum, chars_of, end_incidence_of, ensure_end_spec, ensure_pair_spec, ensure_start_spec, export_from,
    extends, import_spec, is_end_form_of, is_pair_of, is_start_form_of, is_valid_in, lemma_anum_injective,
    lemma_end_list_contains, lemma_ensure_end_spec, lemma_ensure_end_stable, lemma_ensure_pair_spec,
    lemma_ensure_pair_stable, lemma_ensure_start_spec, lemma_ensure_start_stable, lemma_export_wf,
    lemma_parse_advances, lemma_parse_builds, lemma_parse_stable, lemma_start_list_contains, links_wf,
    parse_term, poles_in, start_incidence_of, Links, lemma_anum_head, shape, TOKEN_ROOT, TOKEN_START,
    TOKEN_END, TOKEN_PAIR,
};
use crate::store::StoreError;

verus! {

/// Round trip: a successful import of an Anum text exports back exactly
/// that text, and the store stays well-formed.
pub proof fn law_import_export_roundtrip(links: Links, limit: Option<usize>, bytes: Seq<u8>)
    requires
        links_wf(links),
        import_spec(links, limit, bytes).0 is Ok,
    ensures
        ({
            let (r, next) = import_spec(links, limit, bytes);
            &&& links_wf(next)
            &&& extends(links, next)
            &&& is_valid_in(next, r->Ok_0)
            &&& anum(next, r->Ok_0) == chars_of(bytes)
            &&& export_from(next, r->Ok_0, Set::empty()) == Ok::<Seq<char>, StoreError>(
                chars_of(bytes),
            )
        }),
{
    let (r, next) = import_spec(links, limit, bytes);
    lemma_parse_builds(links, limit, bytes, 0);
    assert(bytes.subrange(0, bytes.len() as int) =~= bytes);
    lemma_export_wf(next, r->Ok_0, Set::empty());
}

/// Canonical replay: once an Anum text has been imported, importing it
/// again into that store, or into any later well-formed state of it and
/// under any capacity bound, returns the same handle and allocates nothing.
pub proof fn law_import_replay(
    links: Links,
    limit: Option<usize>,
    bytes: Seq<u8>,
    later: Links,
    later_limit: Option<usize>,
)
    requires
        links_wf(links),
        import_spec(links, limit, bytes).0 is Ok,
        links_wf(later),
        extends(import_spec(links, limit, bytes).1, later),
    ensures
        import_spec(later, later_limit, bytes) == (import_spec(links, limit, bytes).0, later),
{
    lemma_parse_advances(links, limit, bytes, 0);
    lemma_parse_stable(links, limit, bytes, 0, later, later_limit);
}

/// Import is transactional: whenever it fails, no record changes.
pub proof fn law_import_transactional(links: Links, limit: Option<usize>, bytes: Seq<u8>)
    requires
        import_spec(links, limit, bytes).0 is Err,
    ensures
        import_spec(links, limit, bytes).1 == links,
{
}

/// Portable identity: in a well-formed store the exported Anum text
/// identifies a Link; two handles with the same export are one handle.
pub proof fn law_export_identifies(links: Links, a: u32, b: u32)
    requires
        links_wf(links),
        is_valid_in(links, a),
        is_valid_in(links, b),
        export_from(links, a, Set::empty()) == export_from(links, b, Set::empty()),
    ensures
        a == b,
{
    lemma_export_wf(links, a, Set::empty());
    lemma_export_wf(links, b, Set::empty());
    lemma_anum_injective(links, a, b);
}

/// Canonical construction: every construction keeps the store well-formed
/// and only appends; once a Link has been built, building it again in that
/// store or any later well-formed state of it returns the same handle and
/// changes nothing.
pub proof fn law_construction_canonical(
    links: Links,
    limit: Option<usize>,
    start: u32,
    end: u32,
    later: Links,
    later_limit: Option<usize>,
)
    requires
        links_wf(links),
        links_wf(later),
    ensures
        links_wf(ensure_pair_spec(links, limit, start, end).1),
        extends(links, ensure_pair_spec(links, limit, start, end).1),
        links_wf(ensure_start_spec(links, limit, start).1),
        extends(links, ensure_start_spec(links, limit, start).1),
        links_wf(ensure_end_spec(links, limit, start).1),
        extends(links, ensure_end_spec(links, limit, start).1),
        ensure_pair_spec(links, limit, start, end).0 is Ok && extends(
            ensure_pair_spec(links, limit, start, end).1,
            later,
        ) ==> ensure_pair_spec(later, later_limit, start, end) == (
            ensure_pair_spec(links, limit, start, end).0,
            later,
        ),
        ensure_start_spec(links, limit, start).0 is Ok && extends(
            ensure_start_spec(links, limit, start).1,
            later,
        ) ==> ensure_start_spec(later, later_limit, start) == (
            ensure_start_spec(links, limit, start).0,
            later,
        ),
        ensure_end_spec(links, limit, start).0 is Ok && extends(
            ensure_end_spec(links, limit, start).1,
            later,
        ) ==> ensure_end_spec(later, later_limit, start) == (
            ensure_end_spec(links, limit, start).0,
            later,
        ),
{
    lemma_ensure_pair_spec(links, limit, start, end);
    lemma_ensure_start_spec(links, limit, start);
    lemma_ensure_end_spec(links, limit, start);
    let (rp, lp) = ensure_pair_spec(links, limit, start, end);
    if rp is Ok && extends(lp, later) {
        lemma_ensure_pair_stable(lp, later, later_limit, rp->Ok_0, start, end);
    }
    let (rs, ls) = ensure_start_spec(links, limit, start);
    if rs is Ok && extends(ls, later) {
        lemma_ensure_start_stable(ls, later, later_limit, rs->Ok_0, start);
    }
    let (re, le) = ensure_end_spec(links, limit, start);
    if re is Ok && extends(le, later) {
        lemma_ensure_end_stable(le, later, later_limit, re->Ok_0, start);
    }
}

/// Self-incidence is relative to the record's own handle: an ordinary PAIR
/// is never the START or END self-closed Link with the same two poles.
pub proof fn law_pair_distinct_from_self_closed(links: Links, p: u32, q: u32, start: u32, end: u32)
    requires
        is_pair_of(links, p, start, end),
        poles_in(links, q) == (start, end),
        is_start_form_of(links, q, end) || is_end_form_of(links, q, start) || q == start
            || q == end,
    ensures
        p != q,
{
}

/// The incidence indexes are exact: a handle is listed under a pole exactly
/// when it is a Link with that START (respectively END) pole.
pub proof fn law_incidence_exact(links: Links, x: u32, h: u32)
    requires
        links_wf(links),
    ensures
        start_incidence_of(links, x).contains(h) <==> is_valid_in(links, h) && poles_in(links, h).0
            == x,
        end_incidence_of(links, x).contains(h) <==> is_valid_in(links, h) && poles_in(links, h).1
            == x,
{
    lemma_start_list_contains(links, x, links.len(), h);
    lemma_end_list_contains(links, x, links.len(), h);
}

/// Reading the Anum text of an existing Link, laid out in `bytes` at `pos`,
/// finds that Link, allocates nothing, and stops right after the text.
proof fn lemma_parse_own_anum(links: Links, limit: Option<usize>, bytes: Seq<u8>, pos: int, h: u32)
    requires
        links_wf(links),
        is_valid_in(links, h),
        0 <= pos,
        pos + anum(links, h).len() <= bytes.len(),
        forall|i: int| 0 <= i < anum(links, h).len() ==> #[trigger] bytes[pos + i] as char == anum(
            links,
            h,
        )[i],
    ensures
        parse_term(links, limit, bytes, pos) == (
            Ok::<u32, StoreError>(h),
            links,
            pos + anum(links, h).len(),
        ),
    decreases h,
{
    lemma_anum_head(links, h);
    assert(links.subrange(0, links.len() as int) =~= links);
    let text = anum(links, h);
    assert(bytes[pos + 0] as char == text[0]);
    let token = bytes[pos];
    let (t, c, d) = shape(links, h);
    if t == TOKEN_ROOT {
        assert(token == TOKEN_ROOT);
        assert(shape(links, 1) == shape(links, h));
    } else if t == TOKEN_START || t == TOKEN_END {
        assert(token == t);
        assert forall|i: int| 0 <= i < anum(links, c).len() implies #[trigger] bytes[(pos + 1) + i] as char
            == anum(links, c)[i] by {
            assert(bytes[pos + (1 + i)] as char == text[1 + i]);
        }
        lemma_parse_own_anum(links, limit, bytes, pos + 1, c);
        if t == TOKEN_START {
            lemma_ensure_start_stable(links, links, limit, h, c);
        } else {
            lemma_ensure_end_stable(links, links, limit, h, c);
        }
    } else {
        assert(token == TOKEN_PAIR);
        let lc = anum(links, c).len();
        assert forall|i: int| 0 <= i < anum(links, c).len() implies #[trigger] bytes[(pos + 1) + i] as char
            == anum(links, c)[i] by {
            assert(bytes[pos + (1 + i)] as char == text[1 + i]);
        }
        assert forall|i: int| 0 <= i < anum(links, d).len() implies #[trigger] bytes[(pos + 1 + lc) + i]
            as char == anum(links, d)[i] by {
            assert(bytes[pos + (1 + lc + i)] as char == text[1 + lc + i]);
        }
        lemma_parse_own_anum(links, limit, bytes, pos + 1, c);
        lemma_parse_own_anum(links, limit, bytes, pos + 1 + lc, d);
        lemma_ensure_pair_stable(links, links, limit, h, c, d);
    }
}

/// Importing a Link's own export finds that Link and allocates nothing,
/// under any capacity bound, so it succeeds even in a full store.
pub proof fn law_import_own_export(links: Links, limit: Option<usize>, h: u32, bytes: Seq<u8>)
    requires
        links_wf(links),
        is_valid_in(links, h),
        chars_of(bytes) == anum(links, h),
    ensures
        import_spec(links, limit, bytes) == (Ok::<u32, StoreError>(h), links),
{
    lemma_anum_head(links, h);
    assert forall|i: int| 0 <= i < anum(links, h).len() implies #[trigger] bytes[0 + i] as char == anum(
        links,
        h,
    )[i] by {
        assert(chars_of(bytes)[i] == bytes[i] as char);
    }
    lemma_parse_own_anum(links, limit, bytes, 0, h);
}

/// Every exported text is one Anum term: exporting succeeds exactly for
/// the Links of the store, the text is never empty, its first character
/// tells the form (`8` ROOT, `9` START form, `6` END form, `1` PAIR), and
/// the text reads back as that Link.
pub proof fn law_export_is_anum(links: Links, limit: Option<usize>, h: u32, bytes: Seq<u8>)
    requires
        links_wf(links),
    ensures
        is_valid_in(links, h) ==> export_from(links, h, Set::empty()) == Ok::<Seq<char>, StoreError>(
            anum(links, h),
        ),
        !is_valid_in(links, h) ==> export_from(links, h, Set::empty()) == Err::<Seq<char>, StoreError>(
            StoreError::UnknownHandle(h),
        ),
        is_valid_in(links, h) ==> {
            &&& anum(links, h).len() >= 1
            &&& (anum(links, h)[0] == '8' <==> h == 1)
            &&& (anum(links, h)[0] == '9' <==> exists|c: u32| #[trigger] is_start_form_of(links, h, c))
            &&& (anum(links, h)[0] == '6' <==> exists|c: u32| #[trigger] is_end_form_of(links, h, c))
            &&& (anum(links, h)[0] == '1' <==> exists|s: u32, e: u32| #[trigger] is_pair_of(links, h, s, e))
        },
        is_valid_in(links, h) && chars_of(bytes) == anum(links, h) ==> import_spec(links, limit, bytes)
            == (Ok::<u32, StoreError>(h), links),
{
    if is_valid_in(links, h) {
        lemma_export_wf(links, h, Set::empty());
        lemma_anum_head(links, h);
        let (s, e) = poles_in(links, h);
        assert(shape(links, 1) == shape(links, 1));
        if h == 1 {
        } else {
            assert(shape(links, h) != shape(links, 1));
        }
        if anum(links, h)[0] == '9' {
            assert(is_start_form_of(links, h, e));
        }
        if anum(links, h)[0] == '6' {
            assert(is_end_form_of(links, h, s));
        }
        if anum(links, h)[0] == '1' {
            assert(is_pair_of(links, h, s, e));
        }
        if chars_of(bytes) == anum(links, h) {
            law_import_own_export(links, limit, h, bytes);
        }
    }
}

} // verus!
