//! The optimized link store: canonical Links addressed by local handles,
//! with hash indexes for canonical lookup and pole incidence.
use std::collections::{HashMap, HashSet};
use vstd::prelude::*;
use vstd::string::StringSliceAdditionalSpecFns;

use crate::model::{
    Links, TOKEN_END, TOKEN_PAIR, TOKEN_ROOT, TOKEN_START, anum, at_capacity, canonical, end_incidence_of,
    end_list, ensure_end_spec, ensure_pair_spec, ensure_start_spec, export_from, import_spec, is_end_form_of,
    is_pair_of, is_start_form_of, is_valid_in, lemma_export_wf, lemma_insert_len_bound, lemma_parse_advances,
    lemma_push_keeps, lemma_push_wf, links_wf, parse_term, poles_in, shape, slot_bound, start_incidence_of,
    start_list,
};
use crate::{Handle, ROOT_HANDLE};

verus! {

broadcast use vstd::std_specs::hash::group_hash_axioms;

#[derive(Clone, Debug, PartialEq, Eq)]
pub enum StoreError {
    EmptyAnum,
    InvalidToken(char),
    TruncatedAnum,
    TrailingInput(usize),
    CapacityExceeded,
    UnknownHandle(Handle),
    NonWellFounded(Handle),
}

#[derive(Clone, Copy, Debug, PartialEq, Eq)]
struct Record {
    start: Handle,
    end: Handle,
}

pub struct OptimizedLinkStore {
    records: Vec<Option<Record>>,
    canonical_by_pair: HashMap<u64, Handle>,
    start_forms: HashMap<Handle, Handle>,
    end_forms: HashMap<Handle, Handle>,
    by_start: HashMap<Handle, Vec<Handle>>,
    by_end: HashMap<Handle, Vec<Handle>>,
    max_links: Option<usize>,
}

/// The key under which an ordinary PAIR is indexed.
pub open spec fn pair_key(start: u32, end: u32) -> u64 {
    (start as int * 0x1_0000_0000 + end as int) as u64
}

spec fn record_view(r: Option<Record>) -> Option<(u32, u32)> {
    match r {
        Some(rec) => Some((rec.start, rec.end)),
        None => None,
    }
}

pub proof fn lemma_pair_key_injective(s1: u32, e1: u32, s2: u32, e2: u32)
    requires
        pair_key(s1, e1) == pair_key(s2, e2),
    ensures
        s1 == s2 && e1 == e2,
{
    assert(0 <= s1 as int * 0x1_0000_0000 + e1 as int <= 0xffff_ffff_ffff_ffff) by (nonlinear_arith);
    assert(0 <= s2 as int * 0x1_0000_0000 + e2 as int <= 0xffff_ffff_ffff_ffff) by (nonlinear_arith);
    assert(s1 == s2 && e1 == e2) by (nonlinear_arith)
        requires
            s1 as int * 0x1_0000_0000 + e1 as int == s2 as int * 0x1_0000_0000 + e2 as int,
            0 <= e1 < 0x1_0000_0000,
            0 <= e2 < 0x1_0000_0000,
            0 <= s1,
            0 <= s2,
    ;
}

pub(crate) fn compute_pair_key(start: Handle, end: Handle) -> (k: u64)
    ensures
        k == pair_key(start, end),
{
    proof {
        assert(0 <= start as int * 0x1_0000_0000 + end as int <= 0xffff_ffff_ffff_ffff)
            by (nonlinear_arith);
    }
    (start as u64) * 0x1_0000_0000u64 + (end as u64)
}

proof fn lemma_start_list_prefix(a: Links, b: Links, x: u32, n: nat)
    requires
        n <= a.len(),
        n <= b.len(),
        a.subrange(0, n as int) == b.subrange(0, n as int),
    ensures
        start_list(a, x, n) == start_list(b, x, n),
    decreases n,
{
    if n > 0 {
        assert(a.subrange(0, n - 1) == a.subrange(0, n as int).subrange(0, n - 1));
        assert(b.subrange(0, n - 1) == b.subrange(0, n as int).subrange(0, n - 1));
        assert(a[n - 1] == a.subrange(0, n as int)[n - 1]);
        assert(b[n - 1] == b.subrange(0, n as int)[n - 1]);
        lemma_start_list_prefix(a, b, x, (n - 1) as nat);
    }
}

proof fn lemma_end_list_prefix(a: Links, b: Links, x: u32, n: nat)
    requires
        n <= a.len(),
        n <= b.len(),
        a.subrange(0, n as int) == b.subrange(0, n as int),
    ensures
        end_list(a, x, n) == end_list(b, x, n),
    decreases n,
{
    if n > 0 {
        assert(a.subrange(0, n - 1) == a.subrange(0, n as int).subrange(0, n - 1));
        assert(b.subrange(0, n - 1) == b.subrange(0, n as int).subrange(0, n - 1));
        assert(a[n - 1] == a.subrange(0, n as int)[n - 1]);
        assert(b[n - 1] == b.subrange(0, n as int)[n - 1]);
        lemma_end_list_prefix(a, b, x, (n - 1) as nat);
    }
}

/// Appends one Anum token (`8`, `9`, `6` or `1`) to `text`.
fn push_token(text: &mut String, token: char)
    requires
        token == '8' || token == '9' || token == '6' || token == '1',
    ensures
        final(text)@ == old(text)@.push(token),
{
    if token == '8' {
        text.append("8");
        proof {
            reveal_strlit("8");
        }
    } else if token == '9' {
        text.append("9");
        proof {
            reveal_strlit("9");
        }
    } else if token == '6' {
        text.append("6");
        proof {
            reveal_strlit("6");
        }
    } else {
        text.append("1");
        proof {
            reveal_strlit("1");
        }
    }
}

impl Default for OptimizedLinkStore {
    fn default() -> (store: Self)
        ensures
            store.wf(),
            store.links() == seq![None, Some((1u32, 1u32))],
            store.limit() == None::<usize>,
    {
        Self::new()
    }
}

impl Clone for OptimizedLinkStore {
    fn clone(&self) -> (copy: Self)
        ensures
            copy.links() == self.links(),
            copy.limit() == self.limit(),
            copy.wf() == self.wf(),
    {
        let mut records: Vec<Option<Record>> = Vec::new();
        let mut i: usize = 0;
        while i < self.records.len()
            invariant
                i <= self.records@.len(),
                records@ == self.records@.subrange(0, i as int),
            decreases self.records@.len() - i,
        {
            records.push(self.records[i]);
            i += 1;
            proof {
                assert(records@ =~= self.records@.subrange(0, i as int));
            }
        }
        proof {
            assert(records@ =~= self.records@);
        }
        let copy = Self {
            records,
            canonical_by_pair: self.canonical_by_pair.clone(),
            start_forms: self.start_forms.clone(),
            end_forms: self.end_forms.clone(),
            by_start: self.by_start.clone(),
            by_end: self.by_end.clone(),
            max_links: self.max_links,
        };
        proof {
            assert(copy.links() =~= self.links());
            assert(copy.canonical_by_pair@ == self.canonical_by_pair@);
            assert(copy.start_forms@ == self.start_forms@);
            assert(copy.end_forms@ == self.end_forms@);
            assert(copy.by_start@ == self.by_start@);
            assert(copy.by_end@ == self.by_end@);
            assert(copy.pair_index_wf() == self.pair_index_wf());
            assert(copy.form_index_wf() == self.form_index_wf());
            assert(copy.incidence_wf() == self.incidence_wf());
        }
        copy
    }
}

impl OptimizedLinkStore {
    /// The records of the store, indexed by handle.
    pub closed spec fn links(&self) -> Links {
        self.records@.map_values(|r: Option<Record>| record_view(r))
    }

    /// The optional bound on the number of Links.
    pub closed spec fn limit(&self) -> Option<usize> {
        self.max_links
    }

    spec fn pair_index_wf(&self) -> bool {
        let links = self.links();
        &&& forall|k: u64|
            #![trigger self.canonical_by_pair@.contains_key(k)]
            self.canonical_by_pair@.contains_key(k) ==> {
                let h = self.canonical_by_pair@[k];
                &&& is_pair_of(links, h, poles_in(links, h).0, poles_in(links, h).1)
                &&& pair_key(poles_in(links, h).0, poles_in(links, h).1) == k
            }
        &&& forall|h: u32|
            #![trigger is_pair_of(links, h, poles_in(links, h).0, poles_in(links, h).1)]
            is_pair_of(links, h, poles_in(links, h).0, poles_in(links, h).1) ==> {
                let k = pair_key(poles_in(links, h).0, poles_in(links, h).1);
                &&& self.canonical_by_pair@.contains_key(k)
                &&& self.canonical_by_pair@[k] == h
            }
    }

    spec fn form_index_wf(&self) -> bool {
        let links = self.links();
        &&& forall|c: u32|
            #![trigger self.start_forms@.contains_key(c)]
            self.start_forms@.contains_key(c) ==> is_start_form_of(
                links,
                self.start_forms@[c],
                c,
            )
        &&& forall|h: u32, c: u32|
            #![trigger is_start_form_of(links, h, c)]
            is_start_form_of(links, h, c) ==> self.start_forms@.contains_key(c)
                && self.start_forms@[c] == h
        &&& forall|c: u32|
            #![trigger self.end_forms@.contains_key(c)]
            self.end_forms@.contains_key(c) ==> is_end_form_of(links, self.end_forms@[c], c)
        &&& forall|h: u32, c: u32|
            #![trigger is_end_form_of(links, h, c)]
            is_end_form_of(links, h, c) ==> self.end_forms@.contains_key(c) && self.end_forms@[c]
                == h
    }

    spec fn incidence_wf(&self) -> bool {
        self.incidence_agrees(self.links())
    }

    spec fn incidence_agrees(&self, links: Links) -> bool {
        &&& forall|x: u32|
            #![trigger start_incidence_of(links, x)]
            if self.by_start@.contains_key(x) {
                self.by_start@[x]@ == start_incidence_of(links, x)
            } else {
                start_incidence_of(links, x) == Seq::<u32>::empty()
            }
        &&& forall|x: u32|
            #![trigger end_incidence_of(links, x)]
            if self.by_end@.contains_key(x) {
                self.by_end@[x]@ == end_incidence_of(links, x)
            } else {
                end_incidence_of(links, x) == Seq::<u32>::empty()
            }
    }

    /// The store's records are well-formed and every index agrees with them.
    pub closed spec fn wf(&self) -> bool {
        &&& links_wf(self.links())
        &&& self.pair_index_wf()
        &&& self.form_index_wf()
        &&& self.incidence_wf()
        &&& (self.max_links matches Some(l) ==> l >= 1)
    }

    /// The records of a well-formed store are well-formed.
    pub proof fn lemma_wf_links(&self)
        requires
            self.wf(),
        ensures
            links_wf(self.links()),
    {
    }

    pub fn new() -> (store: Self)
        ensures
            store.wf(),
            store.links() == seq![None, Some((1u32, 1u32))],
            store.limit() == None::<usize>,
    {
        Self::with_optional_limit(None)
    }

    pub fn with_max_links(max_links: usize) -> (store: Self)
        requires
            max_links >= 1,
        ensures
            store.wf(),
            store.links() == seq![None, Some((1u32, 1u32))],
            store.limit() == Some(max_links),
    {
        Self::with_optional_limit(Some(max_links))
    }

    fn with_optional_limit(max_links: Option<usize>) -> (store: Self)
        requires
            max_links matches Some(l) ==> l >= 1,
        ensures
            store.wf(),
            store.links() == seq![None, Some((1u32, 1u32))],
            store.limit() == max_links,
    {
        let mut records: Vec<Option<Record>> = Vec::new();
        records.push(None);
        records.push(Some(Record { start: ROOT_HANDLE, end: ROOT_HANDLE }));
        let mut store = Self {
            records,
            canonical_by_pair: HashMap::new(),
            start_forms: HashMap::new(),
            end_forms: HashMap::new(),
            by_start: HashMap::new(),
            by_end: HashMap::new(),
            max_links,
        };
        // ROOT and self-incidence forms are not ordinary PAIR representatives.
        // An ordinary PAIR may have the same two pole handles as such a record
        // while remaining a distinct target Link because self-incidence is
        // relative to the record's own handle.
        proof {
            let links = store.links();
            assert(links =~= seq![None, Some((1u32, 1u32))]);
            assert(links.drop_last() =~= seq![None]);
            assert(links_wf(links));
            assert forall|x: u32| #[trigger]
                start_incidence_of(links.drop_last(), x) == Seq::<u32>::empty() by {
                reveal_with_fuel(start_list, 2);
            }
            assert forall|x: u32| #[trigger]
                end_incidence_of(links.drop_last(), x) == Seq::<u32>::empty() by {
                reveal_with_fuel(end_list, 2);
            }
            assert(store.by_start@ == Map::<u32, Vec<u32>>::empty());
            assert(store.by_end@ == Map::<u32, Vec<u32>>::empty());
            assert(store.incidence_agrees(links.drop_last()));
        }
        store.index_record(ROOT_HANDLE, ROOT_HANDLE, ROOT_HANDLE);
        store
    }

    /// Adds `handle` to the incidence lists of its two poles; `handle` is the
    /// newest record, `(start, end)`.
    fn index_record(&mut self, handle: Handle, start: Handle, end: Handle)
        requires
            old(self).links().len() >= 1,
            handle == old(self).links().len() - 1,
            old(self).links().last() == Some((start, end)),
            old(self).incidence_agrees(old(self).links().drop_last()),
        ensures
            final(self).incidence_wf(),
            final(self).records@ == old(self).records@,
            final(self).canonical_by_pair@ == old(self).canonical_by_pair@,
            final(self).start_forms@ == old(self).start_forms@,
            final(self).end_forms@ == old(self).end_forms@,
            final(self).max_links == old(self).max_links,
    {
        let ghost links = self.links();
        let ghost prefix = links.drop_last();
        let mut starts = match self.by_start.remove(&start) {
            Some(v) => v,
            None => Vec::new(),
        };
        starts.push(handle);
        self.by_start.insert(start, starts);
        let mut ends = match self.by_end.remove(&end) {
            Some(v) => v,
            None => Vec::new(),
        };
        ends.push(handle);
        self.by_end.insert(end, ends);
        proof {
            assert(prefix.subrange(0, prefix.len() as int) =~= links.subrange(0, prefix.len() as int));
            assert forall|x: u32| #[trigger] start_incidence_of(links, x) == if x == start {
                start_incidence_of(prefix, x).push(handle)
            } else {
                start_incidence_of(prefix, x)
            } by {
                lemma_start_list_prefix(prefix, links, x, prefix.len());
            }
            assert forall|x: u32| #[trigger] end_incidence_of(links, x) == if x == end {
                end_incidence_of(prefix, x).push(handle)
            } else {
                end_incidence_of(prefix, x)
            } by {
                lemma_end_list_prefix(prefix, links, x, prefix.len());
            }
        }
    }

    /// The Links whose START pole is `start`, oldest first.
    pub fn start_incidence(&self, start: Handle) -> (r: Result<&[Handle], StoreError>)
        ensures
            r is Ok <==> is_valid_in(self.links(), start),
            r is Err ==> r == Err::<&[Handle], StoreError>(StoreError::UnknownHandle(start)),
            r matches Ok(list) ==> (self.wf() ==> list@ == start_incidence_of(self.links(), start)),
    {
        self.require_valid(start)?;
        match self.by_start.get(&start) {
            Some(list) => Ok(list.as_slice()),
            None => Ok(&[]),
        }
    }

    /// The Links whose END pole is `end`, oldest first.
    pub fn end_incidence(&self, end: Handle) -> (r: Result<&[Handle], StoreError>)
        ensures
            r is Ok <==> is_valid_in(self.links(), end),
            r is Err ==> r == Err::<&[Handle], StoreError>(StoreError::UnknownHandle(end)),
            r matches Ok(list) ==> (self.wf() ==> list@ == end_incidence_of(self.links(), end)),
    {
        self.require_valid(end)?;
        match self.by_end.get(&end) {
            Some(list) => Ok(list.as_slice()),
            None => Ok(&[]),
        }
    }

    /// Imports one whole Anum text, building each of its Links canonically.
    /// The import is transactional: on any error the store is unchanged.
    pub fn import_anum(&mut self, source: &str) -> (r: Result<Handle, StoreError>)
        requires
            old(self).wf(),
        ensures
            final(self).wf(),
            final(self).limit() == old(self).limit(),
            (r, final(self).links()) == import_spec(
                old(self).links(),
                old(self).limit(),
                source.spec_bytes(),
            ),
    {
        let bytes = source.as_bytes();
        if bytes.len() == 0 {
            return Err(StoreError::EmptyAnum);
        }
        // Whole-Anum import is transactional. Parsing/canonicalization happens
        // against a staging copy; only complete success replaces live state.

        let mut staging = self.clone();
        let mut cursor = 0usize;
        let handle = staging.parse_node(bytes, &mut cursor)?;
        if cursor != bytes.len() {
            return Err(StoreError::TrailingInput(cursor));
        }
        *self = staging;
        Ok(handle)
    }

    fn parse_node(&mut self, bytes: &[u8], cursor: &mut usize) -> (r: Result<Handle, StoreError>)
        requires
            old(self).wf(),
            *old(cursor) <= bytes@.len(),
        ensures
            final(self).wf(),
            final(self).limit() == old(self).limit(),
            (r, final(self).links(), *final(cursor) as int) == parse_term(
                old(self).links(),
                old(self).limit(),
                bytes@,
                *old(cursor) as int,
            ),
        decreases bytes@.len() - *old(cursor),
    {
        let ghost links = self.links();
        if *cursor >= bytes.len() {
            return Err(StoreError::TruncatedAnum);
        }

        let token = bytes[*cursor];
        *cursor += 1;

        if token == TOKEN_ROOT {
            Ok(ROOT_HANDLE)
        } else if token == TOKEN_START {
            let child = self.parse_node(bytes, cursor)?;
            self.ensure_start_self_closed(child)
        } else if token == TOKEN_END {
            let child = self.parse_node(bytes, cursor)?;
            self.ensure_end_self_closed(child)
        } else if token == TOKEN_PAIR {
            let ghost at = *cursor;
            let start = self.parse_node(bytes, cursor)?;
            proof {
                lemma_parse_advances(links, self.limit(), bytes@, at as int);
            }
            let end = self.parse_node(bytes, cursor)?;
            self.ensure_pair(start, end)
        } else {
            Err(StoreError::InvalidToken(token as char))
        }
    }

    /// Appends the record `(start, end)` as a new Link without any
    /// canonicalization, validity check or index update. It exists to model
    /// substrate corruption; afterwards the store is in general not well-formed.
    pub fn push_unchecked_record(&mut self, start: Handle, end: Handle) -> (r: Result<Handle, StoreError>)
        requires
            old(self).links().len() >= 1,
        ensures
            final(self).limit() == old(self).limit(),
            at_capacity(old(self).links(), old(self).limit()) ==> r == Err::<Handle, StoreError>(
                StoreError::CapacityExceeded,
            ) && final(self).links() == old(self).links(),
            !at_capacity(old(self).links(), old(self).limit()) ==> r == Ok::<Handle, StoreError>(
                old(self).links().len() as Handle,
            ) && final(self).links() == old(self).links().push(Some((start, end))),
    {
        let handle = self.next_handle()?;
        self.records.push(Some(Record { start, end }));
        proof {
            assert(self.links() =~= old(self).links().push(Some((start, end))));
        }
        Ok(handle)
    }

    /// The Anum text of `handle`, read back structurally from the records.
    pub fn export_anum(&self, handle: Handle) -> (r: Result<String, StoreError>)
        ensures
            match export_from(self.links(), handle, Set::empty()) {
                Ok(text) => r matches Ok(s) && s@ == text,
                Err(e) => r == Err::<String, StoreError>(e),
            },
            self.wf() && is_valid_in(self.links(), handle) ==> (r matches Ok(s) && s@ == anum(
                self.links(),
                handle,
            )),
            self.wf() && !is_valid_in(self.links(), handle) ==> r == Err::<String, StoreError>(
                StoreError::UnknownHandle(handle),
            ),
    {
        let mut visiting: HashSet<Handle> = HashSet::new();
        let mut text = String::new();
        proof {
            if self.wf() && is_valid_in(self.links(), handle) {
                lemma_export_wf(self.links(), handle, Set::empty());
            }
        }
        self.export_node(handle, &mut visiting, &mut text)?;
        Ok(text)
    }

    fn export_node(&self, handle: Handle, visiting: &mut HashSet<Handle>, text: &mut String) -> (r:
        Result<(), StoreError>)
        ensures
            match export_from(self.links(), handle, old(visiting)@) {
                Ok(t) => r is Ok && final(text)@ == old(text)@ + t && final(visiting)@ == old(
                    visiting,
                )@,
                Err(e) => r == Err::<(), StoreError>(e),
            },
        decreases slot_bound() - old(visiting)@.len(),
    {
        let ghost links = self.links();
        let ghost entry = visiting@;
        let (start, end) = self.poles(handle)?;

        if start == handle && end == handle {
            push_token(text, '8');
            return Ok(());
        }

        if !visiting.insert(handle) {
            return Err(StoreError::NonWellFounded(handle));
        }
        proof {
            lemma_insert_len_bound(entry, handle);
        }

        if start == handle {
            push_token(text, '9');
            self.export_node(end, visiting, text)?;
        } else if end == handle {
            push_token(text, '6');
            self.export_node(start, visiting, text)?;
        } else {
            push_token(text, '1');
            self.export_node(start, visiting, text)?;
            self.export_node(end, visiting, text)?;
        }

        visiting.remove(&handle);
        proof {
            assert(visiting@ =~= entry);
        }
        Ok(())
    }

    fn require_valid(&self, handle: Handle) -> (r: Result<(), StoreError>)
        ensures
            r is Ok <==> is_valid_in(self.links(), handle),
            r is Err ==> r == Err::<(), StoreError>(StoreError::UnknownHandle(handle)),
    {
        if self.is_valid(handle) {
            Ok(())
        } else {
            Err(StoreError::UnknownHandle(handle))
        }
    }

    fn next_handle(&self) -> (r: Result<Handle, StoreError>)
        requires
            self.links().len() >= 1,
        ensures
            at_capacity(self.links(), self.limit()) ==> r == Err::<Handle, StoreError>(
                StoreError::CapacityExceeded,
            ),
            !at_capacity(self.links(), self.limit()) ==> r == Ok::<Handle, StoreError>(
                self.links().len() as Handle,
            ),
    {
        let next = self.records.len();
        if let Some(limit) = self.max_links {
            if self.link_count() >= limit {
                return Err(StoreError::CapacityExceeded);
            }
        }
        if next > u32::MAX as usize {
            Err(StoreError::CapacityExceeded)
        } else {
            Ok(next as Handle)
        }
    }

    pub fn ensure_pair(&mut self, start: Handle, end: Handle) -> (r: Result<Handle, StoreError>)
        requires
            old(self).wf(),
        ensures
            final(self).wf(),
            final(self).limit() == old(self).limit(),
            (r, final(self).links()) == ensure_pair_spec(old(self).links(), old(self).limit(), start, end),
    {
        self.require_valid(start)?;
        self.require_valid(end)?;

        let key = compute_pair_key(start, end);
        if let Some(handle) = self.canonical_by_pair.get(&key) {
            proof {
                let links = self.links();
                let h = *handle;
                lemma_pair_key_injective(poles_in(links, h).0, poles_in(links, h).1, start, end);
                assert(is_pair_of(links, h, start, end));
                let c = choose|c: u32| is_pair_of(links, c, start, end);
                assert(shape(links, c) == shape(links, h));
            }
            return Ok(*handle);
        }
        proof {
            let links = self.links();
            if exists|h: u32| is_pair_of(links, h, start, end) {
                let h = choose|h: u32| is_pair_of(links, h, start, end);
                assert(is_pair_of(links, h, poles_in(links, h).0, poles_in(links, h).1));
            }
        }
        self.allocate_record(start, end)
    }

    fn allocate_record(&mut self, start: Handle, end: Handle) -> (r: Result<Handle, StoreError>)
        requires
            old(self).wf(),
            is_valid_in(old(self).links(), start),
            is_valid_in(old(self).links(), end),
            !exists|h: u32| is_pair_of(old(self).links(), h, start, end),
        ensures
            final(self).wf(),
            final(self).limit() == old(self).limit(),
            (r, final(self).links()) == ensure_pair_spec(old(self).links(), old(self).limit(), start, end),
    {
        let handle = self.next_handle()?;
        let ghost old_links = self.links();
        self.records.push(Some(Record { start, end }));
        let key = compute_pair_key(start, end);
        self.canonical_by_pair.insert(key, handle);
        proof {
            let links = self.links();
            assert(links =~= old_links.push(Some((start, end))));
            assert(links.drop_last() =~= old_links);
            lemma_push_keeps(old_links, Some((start, end)));
            assert forall|a: u32| is_valid_in(old_links, a) implies #[trigger] shape(old_links, a) != shape(
                links,
                handle,
            ) by {
                if shape(old_links, a) == shape(links, handle) {
                    assert(is_pair_of(old_links, a, start, end));
                }
            }
            lemma_push_wf(old_links, start, end);
            assert forall|k: u64| #[trigger] self.canonical_by_pair@.contains_key(k) implies {
                let h = self.canonical_by_pair@[k];
                &&& is_pair_of(links, h, poles_in(links, h).0, poles_in(links, h).1)
                &&& pair_key(poles_in(links, h).0, poles_in(links, h).1) == k
            } by {
                if k != key {
                    assert(old(self).canonical_by_pair@.contains_key(k));
                    let h = old(self).canonical_by_pair@[k];
                    assert(is_pair_of(old_links, h, poles_in(old_links, h).0, poles_in(old_links, h).1));
                }
            }
            assert forall|h: u32|
                #[trigger] is_pair_of(links, h, poles_in(links, h).0, poles_in(links, h).1) implies {
                let k = pair_key(poles_in(links, h).0, poles_in(links, h).1);
                &&& self.canonical_by_pair@.contains_key(k)
                &&& self.canonical_by_pair@[k] == h
            } by {
                if h != handle {
                    assert(is_pair_of(old_links, h, poles_in(old_links, h).0, poles_in(old_links, h).1));
                    if pair_key(poles_in(links, h).0, poles_in(links, h).1) == key {
                        lemma_pair_key_injective(poles_in(links, h).0, poles_in(links, h).1, start, end);
                    }
                }
            }
            assert forall|h: u32, c: u32| #[trigger] is_start_form_of(links, h, c) implies
                self.start_forms@.contains_key(c) && self.start_forms@[c] == h by {
                assert(is_start_form_of(old_links, h, c));
            }
            assert forall|h: u32, c: u32| #[trigger] is_end_form_of(links, h, c) implies
                self.end_forms@.contains_key(c) && self.end_forms@[c] == h by {
                assert(is_end_form_of(old_links, h, c));
            }
            assert forall|c: u32| #[trigger] self.start_forms@.contains_key(c) implies is_start_form_of(
                links, self.start_forms@[c], c) by {
                assert(is_start_form_of(old_links, self.start_forms@[c], c));
            }
            assert forall|c: u32| #[trigger] self.end_forms@.contains_key(c) implies is_end_form_of(
                links, self.end_forms@[c], c) by {
                assert(is_end_form_of(old_links, self.end_forms@[c], c));
            }
        }
        self.index_record(handle, start, end);
        Ok(handle)
    }

    /// The canonical START_SELF_CLOSED Link over `child`: the record `(X, child)`
    /// whose START pole is its own handle `X`.
    pub fn ensure_start_self_closed(&mut self, child: Handle) -> (r: Result<Handle, StoreError>)
        requires
            old(self).wf(),
        ensures
            final(self).wf(),
            final(self).limit() == old(self).limit(),
            (r, final(self).links()) == ensure_start_spec(old(self).links(), old(self).limit(), child),
    {
        self.require_valid(child)?;
        if let Some(handle) = self.start_forms.get(&child) {
            proof {
                let links = self.links();
                let c = choose|c: u32| is_start_form_of(links, c, child);
                assert(shape(links, c) == shape(links, *handle));
            }
            return Ok(*handle);
        }
        let handle = self.next_handle()?;
        let ghost old_links = self.links();
        let record = Record { start: handle, end: child };
        self.records.push(Some(record));
        self.start_forms.insert(child, handle);
        proof {
            let links = self.links();
            assert(links =~= old_links.push(Some((handle, child))));
            assert(links.drop_last() =~= old_links);
            lemma_push_keeps(old_links, Some((handle, child)));
            assert forall|a: u32| is_valid_in(old_links, a) implies #[trigger] shape(old_links, a) != shape(
                links,
                handle,
            ) by {
                if shape(old_links, a) == shape(links, handle) {
                    assert(is_start_form_of(old_links, a, child));
                }
            }
            lemma_push_wf(old_links, handle, child);
            assert forall|k: u64| #[trigger] self.canonical_by_pair@.contains_key(k) implies {
                let h = self.canonical_by_pair@[k];
                &&& is_pair_of(links, h, poles_in(links, h).0, poles_in(links, h).1)
                &&& pair_key(poles_in(links, h).0, poles_in(links, h).1) == k
            } by {
                let h = old(self).canonical_by_pair@[k];
                assert(is_pair_of(old_links, h, poles_in(old_links, h).0, poles_in(old_links, h).1));
            }
            assert forall|h: u32|
                #[trigger] is_pair_of(links, h, poles_in(links, h).0, poles_in(links, h).1) implies {
                let k = pair_key(poles_in(links, h).0, poles_in(links, h).1);
                &&& self.canonical_by_pair@.contains_key(k)
                &&& self.canonical_by_pair@[k] == h
            } by {
                assert(is_pair_of(old_links, h, poles_in(old_links, h).0, poles_in(old_links, h).1));
            }
            assert forall|h: u32, c: u32| #[trigger] is_start_form_of(links, h, c) implies
                self.start_forms@.contains_key(c) && self.start_forms@[c] == h by {
                if h != handle {
                    assert(is_start_form_of(old_links, h, c));
                }
            }
            assert forall|h: u32, c: u32| #[trigger] is_end_form_of(links, h, c) implies
                self.end_forms@.contains_key(c) && self.end_forms@[c] == h by {
                assert(is_end_form_of(old_links, h, c));
            }
            assert forall|c: u32| #[trigger] self.start_forms@.contains_key(c) implies is_start_form_of(
                links, self.start_forms@[c], c) by {
                if c != child {
                    assert(is_start_form_of(old_links, self.start_forms@[c], c));
                }
            }
            assert forall|c: u32| #[trigger] self.end_forms@.contains_key(c) implies is_end_form_of(
                links, self.end_forms@[c], c) by {
                assert(is_end_form_of(old_links, self.end_forms@[c], c));
            }
        }
        self.index_record(handle, handle, child);
        Ok(handle)
    }

    /// The canonical END_SELF_CLOSED Link over `child`: the record `(child, X)`
    /// whose END pole is its own handle `X`.
    pub fn ensure_end_self_closed(&mut self, child: Handle) -> (r: Result<Handle, StoreError>)
        requires
            old(self).wf(),
        ensures
            final(self).wf(),
            final(self).limit() == old(self).limit(),
            (r, final(self).links()) == ensure_end_spec(old(self).links(), old(self).limit(), child),
    {
        self.require_valid(child)?;
        if let Some(handle) = self.end_forms.get(&child) {
            proof {
                let links = self.links();
                let c = choose|c: u32| is_end_form_of(links, c, child);
                assert(shape(links, c) == shape(links, *handle));
            }
            return Ok(*handle);
        }
        let handle = self.next_handle()?;
        let ghost old_links = self.links();
        let record = Record { start: child, end: handle };
        self.records.push(Some(record));
        self.end_forms.insert(child, handle);
        proof {
            let links = self.links();
            assert(links =~= old_links.push(Some((child, handle))));
            assert(links.drop_last() =~= old_links);
            lemma_push_keeps(old_links, Some((child, handle)));
            assert forall|a: u32| is_valid_in(old_links, a) implies #[trigger] shape(old_links, a) != shape(
                links,
                handle,
            ) by {
                if shape(old_links, a) == shape(links, handle) {
                    assert(is_end_form_of(old_links, a, child));
                }
            }
            lemma_push_wf(old_links, child, handle);
            assert forall|k: u64| #[trigger] self.canonical_by_pair@.contains_key(k) implies {
                let h = self.canonical_by_pair@[k];
                &&& is_pair_of(links, h, poles_in(links, h).0, poles_in(links, h).1)
                &&& pair_key(poles_in(links, h).0, poles_in(links, h).1) == k
            } by {
                let h = old(self).canonical_by_pair@[k];
                assert(is_pair_of(old_links, h, poles_in(old_links, h).0, poles_in(old_links, h).1));
            }
            assert forall|h: u32|
                #[trigger] is_pair_of(links, h, poles_in(links, h).0, poles_in(links, h).1) implies {
                let k = pair_key(poles_in(links, h).0, poles_in(links, h).1);
                &&& self.canonical_by_pair@.contains_key(k)
                &&& self.canonical_by_pair@[k] == h
            } by {
                assert(is_pair_of(old_links, h, poles_in(old_links, h).0, poles_in(old_links, h).1));
            }
            assert forall|h: u32, c: u32| #[trigger] is_end_form_of(links, h, c) implies
                self.end_forms@.contains_key(c) && self.end_forms@[c] == h by {
                if h != handle {
                    assert(is_end_form_of(old_links, h, c));
                }
            }
            assert forall|h: u32, c: u32| #[trigger] is_start_form_of(links, h, c) implies
                self.start_forms@.contains_key(c) && self.start_forms@[c] == h by {
                assert(is_start_form_of(old_links, h, c));
            }
            assert forall|c: u32| #[trigger] self.end_forms@.contains_key(c) implies is_end_form_of(
                links, self.end_forms@[c], c) by {
                if c != child {
                    assert(is_end_form_of(old_links, self.end_forms@[c], c));
                }
            }
            assert forall|c: u32| #[trigger] self.start_forms@.contains_key(c) implies is_start_form_of(
                links, self.start_forms@[c], c) by {
                assert(is_start_form_of(old_links, self.start_forms@[c], c));
            }
        }
        self.index_record(handle, child, handle);
        Ok(handle)
    }

    pub fn link_count(&self) -> (n: usize)
        ensures
            self.links().len() >= 1 ==> n == self.links().len() - 1,
    {
        // Slot 0 is never a Link; every store holds it.
        if self.records.len() == 0 {
            0
        } else {
            self.records.len() - 1
        }
    }

    pub fn is_valid(&self, handle: Handle) -> (b: bool)
        ensures
            b == is_valid_in(self.links(), handle),
    {
        handle > 0 && (handle as usize) < self.records.len() && self.records[handle as usize].is_some()
    }

    pub fn poles(&self, handle: Handle) -> (r: Result<(Handle, Handle), StoreError>)
        ensures
            match r {
                Ok(p) => handle < self.links().len() && self.links()[handle as int] == Some(p),
                Err(e) => e == StoreError::UnknownHandle(handle) && !(handle < self.links().len()
                    && self.links()[handle as int] is Some),
            },
    {
        if (handle as usize) < self.records.len() {
            match self.records[handle as usize] {
                Some(record) => Ok((record.start, record.end)),
                None => Err(StoreError::UnknownHandle(handle)),
            }
        } else {
            Err(StoreError::UnknownHandle(handle))
        }
    }
}

} // verus!
