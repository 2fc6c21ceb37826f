use vstd::prelude::*;
use vstd::pervasive::unreached;
use vstd::bytes::{
    lemma_auto_spec_u64_to_from_le_bytes, spec_u64_from_le_bytes, u64_from_le_bytes,
    u64_to_le_bytes,
};
use crate::codec::{
    decode_proposal, encode_proposal, lemma_encode_voters_len, lemma_proposal_round_trip,
    spec_decode_proposal, spec_encode_proposal, PROPOSAL_MAX_SIZE,
};
use crate::exam::{
    decode_exam, encode_exam, lemma_exam_round_trip, spec_decode_exam, spec_encode_exam, Exam,
    ExamView, EXAM_MAX_SIZE,
};
use crate::proposal::{Proposal, ProposalView};
use crate::storage::{
    store_attach, store_detach, store_get, store_insert, store_len, store_origin, store_remove,
    sub_entries, sub_origin, store_entries, ByteStore, SubRegion,
};

verus! {

/// Participation percentages are stored as exactly eight bytes.
pub const PARTICIPATION_SIZE: usize = 8;

/// Every participation encoding has exactly the declared size.
pub const PARTICIPATION_IS_FIXED_SIZE: bool = true;

/// A capacity failure: the encoded record exceeds its type's size bound.
#[derive(Clone, Copy, PartialEq, Eq, Structural, Debug)]
pub enum StoreError {
    RecordTooLarge,
}

/// True of raw map contents every entry of which is a canonical, well-formed,
/// size-bounded proposal encoding; all contents written through
/// `ProposalStore` satisfy this.
pub open spec fn proposal_bytes_wf(m: Map<u64, Seq<u8>>) -> bool {
    &&& m.dom().finite()
    &&& forall|k: u64| #[trigger]
        m.dom().contains(k) ==> {
            let d = spec_decode_proposal(m[k]);
            &&& d is Some
            &&& d.unwrap().wf()
            &&& spec_encode_proposal(d.unwrap()) == m[k]
            &&& m[k].len() <= PROPOSAL_MAX_SIZE
        }
}

/// The proposals encoded in raw map contents.
pub open spec fn decoded_proposals(m: Map<u64, Seq<u8>>) -> Map<u64, ProposalView> {
    Map::new(|k: u64| m.dom().contains(k), |k: u64| spec_decode_proposal(m[k]).unwrap())
}

/// The ordered persistent map of proposals, backed by one sub-region.
pub struct ProposalStore {
    bytes: ByteStore,
}

impl View for ProposalStore {
    type V = Map<u64, ProposalView>;

    closed spec fn view(&self) -> Map<u64, ProposalView> {
        decoded_proposals(store_entries(self.bytes))
    }
}

impl ProposalStore {
    /// The store's invariant over its raw entries.
    pub closed spec fn wf(self) -> bool {
        proposal_bytes_wf(store_entries(self.bytes))
    }

    /// Which partitioner's sub-region backs this store.
    pub closed spec fn origin(self) -> (int, u8) {
        store_origin(self.bytes)
    }

    /// Attaches to a sub-region, adopting the proposals recorded there.
    pub(crate) fn attach(s: SubRegion) -> (st: Self)
        requires
            proposal_bytes_wf(sub_entries(s)),
        ensures
            st.wf(),
            st@ == decoded_proposals(sub_entries(s)),
            st.origin() == sub_origin(s),
    {
        ProposalStore { bytes: store_attach(s) }
    }

    /// Hands the backing sub-region back; it records exactly this store's
    /// proposals.
    pub(crate) fn detach(self) -> (s: SubRegion)
        requires
            self.wf(),
        ensures
            proposal_bytes_wf(sub_entries(s)),
            decoded_proposals(sub_entries(s)) == self@,
            sub_origin(s) == self.origin(),
    {
        store_detach(self.bytes)
    }

    /// Point lookup. Returns the proposal stored under the key, if any.
    pub fn get(&self, key: u64) -> (r: Option<Proposal>)
        requires
            self.wf(),
        ensures
            match r {
                Some(p) => {
                    &&& self@.contains_key(key)
                    &&& p@ == self@[key]
                    &&& p@.wf()
                    &&& spec_encode_proposal(p@).len() <= PROPOSAL_MAX_SIZE
                },
                None => !self@.contains_key(key),
            },
    {
        match store_get(&self.bytes, key) {
            None => None,
            Some(bytes) => match decode_proposal(&bytes) {
                Ok(p) => Some(p),
                Err(_) => unreached(),
            },
        }
    }

    /// Inserts or overwrites the record under the key, returning the previous
    /// record there, if any. Rejects, leaving the map unchanged, exactly when
    /// the encoding exceeds the proposal size bound.
    pub fn insert(&mut self, key: u64, p: Proposal) -> (r: Result<Option<Proposal>, StoreError>)
        requires
            old(self).wf(),
            p@.wf(),
        ensures
            final(self).wf(),
            final(self)@.dom().finite(),
            final(self).origin() == old(self).origin(),
            match r {
                Ok(prev) => {
                    &&& spec_encode_proposal(p@).len() <= PROPOSAL_MAX_SIZE
                    &&& final(self)@ == old(self)@.insert(key, p@)
                    &&& forall|k2: u64|
                        k2 != key && old(self)@.contains_key(k2) ==> final(self)@[k2] == old(
                            self,
                        )@[k2]
                    &&& match prev {
                        Some(q) => old(self)@.contains_key(key) && q@ == old(self)@[key],
                        None => !old(self)@.contains_key(key),
                    }
                },
                Err(e) => {
                    &&& e == StoreError::RecordTooLarge
                    &&& spec_encode_proposal(p@).len() > PROPOSAL_MAX_SIZE
                    &&& final(self)@ == old(self)@
                },
            },
    {
        let bytes = encode_proposal(&p);
        if bytes.len() > PROPOSAL_MAX_SIZE {
            proof {
                assert(self@.dom() =~= store_entries(self.bytes).dom());
            }
            return Err(StoreError::RecordTooLarge);
        }
        proof {
            lemma_encode_voters_len(p@.voted);
            lemma_proposal_round_trip(p@);
        }
        let prev_bytes = store_insert(&mut self.bytes, key, bytes);
        proof {
            assert(final(self)@ =~= old(self)@.insert(key, p@));
            assert(self@.dom() =~= store_entries(self.bytes).dom());
        }
        match prev_bytes {
            None => Ok(None),
            Some(pb) => match decode_proposal(&pb) {
                Ok(q) => Ok(Some(q)),
                Err(_) => unreached(),
            },
        }
    }

    /// Deletes the entry under the key, returning it, if any.
    pub fn remove(&mut self, key: u64) -> (r: Option<Proposal>)
        requires
            old(self).wf(),
        ensures
            final(self).wf(),
            final(self).origin() == old(self).origin(),
            final(self)@ == old(self)@.remove(key),
            match r {
                Some(q) => old(self)@.contains_key(key) && q@ == old(self)@[key],
                None => !old(self)@.contains_key(key),
            },
    {
        let prev_bytes = store_remove(&mut self.bytes, key);
        proof {
            assert(final(self)@ =~= old(self)@.remove(key));
        }
        match prev_bytes {
            None => None,
            Some(pb) => match decode_proposal(&pb) {
                Ok(q) => Some(q),
                Err(_) => unreached(),
            },
        }
    }

    /// The number of live entries.
    pub fn len(&self) -> (n: u64)
        requires
            self.wf(),
        ensures
            n == self@.dom().len(),
            self@.dom().finite(),
    {
        let n = store_len(&self.bytes);
        proof {
            assert(self@.dom() =~= store_entries(self.bytes).dom());
        }
        n
    }

    /// All entries, in ascending key order: a fresh snapshot, not a cursor.
    pub fn iterate(&self) -> (out: Vec<(u64, Proposal)>)
        requires
            self.wf(),
        ensures
            forall|i: int, j: int| 0 <= i < j < out@.len() ==> out@[i].0 < out@[j].0,
            forall|i: int|
                0 <= i < out@.len() ==> self@.contains_key(out@[i].0) && out@[i].1@
                    == self@[out@[i].0],
            forall|k: u64|
                self@.contains_key(k) ==> exists|i: int| 0 <= i < out@.len() && out@[i].0 == k,
    {
        let raw = crate::storage::store_entries_vec(&self.bytes);
        let mut out: Vec<(u64, Proposal)> = Vec::new();
        let mut idx: usize = 0;
        while idx < raw.len()
            invariant
                idx <= raw@.len(),
                self.wf(),
                out@.len() == idx,
                forall|i: int, j: int| 0 <= i < j < raw@.len() ==> raw@[i].0 < raw@[j].0,
                forall|i: int|
                    0 <= i < raw@.len() ==> store_entries(self.bytes).dom().contains(raw@[i].0)
                        && raw@[i].1@ == store_entries(self.bytes)[raw@[i].0],
                forall|i: int| 0 <= i < idx ==> out@[i].0 == raw@[i].0,
                forall|i: int|
                    0 <= i < idx ==> self@.contains_key(out@[i].0) && out@[i].1@
                        == self@[out@[i].0],
            decreases raw@.len() - idx,
        {
            let key = raw[idx].0;
            match decode_proposal(&raw[idx].1) {
                Ok(p) => out.push((key, p)),
                Err(_) => unreached(),
            }
            idx = idx + 1;
        }
        proof {
            assert forall|k: u64| self@.contains_key(k) implies exists|i: int|
                0 <= i < out@.len() && out@[i].0 == k by {
                let i = choose|i: int|
                    0 <= i < raw@.len() && raw@[i].0 == k;
                assert(out@[i].0 == k);
            }
        }
        out
    }
}

/// True of raw map contents every entry of which is a canonical, size-bounded
/// exam encoding.
pub open spec fn exam_bytes_wf(m: Map<u64, Seq<u8>>) -> bool {
    &&& m.dom().finite()
    &&& forall|k: u64| #[trigger]
        m.dom().contains(k) ==> {
            let d = spec_decode_exam(m[k]);
            &&& d is Some
            &&& spec_encode_exam(d.unwrap()) == m[k]
            &&& m[k].len() <= EXAM_MAX_SIZE
        }
}

/// The exams encoded in raw map contents.
pub open spec fn decoded_exams(m: Map<u64, Seq<u8>>) -> Map<u64, ExamView> {
    Map::new(|k: u64| m.dom().contains(k), |k: u64| spec_decode_exam(m[k]).unwrap())
}

/// The ordered persistent map of exam records, backed by one sub-region.
pub struct ExamStore {
    bytes: ByteStore,
}

impl View for ExamStore {
    type V = Map<u64, ExamView>;

    closed spec fn view(&self) -> Map<u64, ExamView> {
        decoded_exams(store_entries(self.bytes))
    }
}

impl ExamStore {
    /// The store's invariant over its raw entries.
    pub closed spec fn wf(self) -> bool {
        exam_bytes_wf(store_entries(self.bytes))
    }

    /// Which partitioner's sub-region backs this store.
    pub closed spec fn origin(self) -> (int, u8) {
        store_origin(self.bytes)
    }

    /// Attaches to a sub-region, adopting the exams recorded there.
    pub(crate) fn attach(s: SubRegion) -> (st: Self)
        requires
            exam_bytes_wf(sub_entries(s)),
        ensures
            st.wf(),
            st@ == decoded_exams(sub_entries(s)),
            st.origin() == sub_origin(s),
    {
        ExamStore { bytes: store_attach(s) }
    }

    /// Hands the backing sub-region back; it records exactly this store's
    /// exams.
    pub(crate) fn detach(self) -> (s: SubRegion)
        requires
            self.wf(),
        ensures
            exam_bytes_wf(sub_entries(s)),
            decoded_exams(sub_entries(s)) == self@,
            sub_origin(s) == self.origin(),
    {
        store_detach(self.bytes)
    }

    /// Point lookup. Returns the exam stored under the key, if any.
    pub fn get(&self, key: u64) -> (r: Option<Exam>)
        requires
            self.wf(),
        ensures
            match r {
                Some(e) => self@.contains_key(key) && e@ == self@[key],
                None => !self@.contains_key(key),
            },
    {
        match store_get(&self.bytes, key) {
            None => None,
            Some(bytes) => match decode_exam(&bytes) {
                Ok(e) => Some(e),
                Err(_) => unreached(),
            },
        }
    }

    /// Inserts or overwrites the record under the key, returning the previous
    /// record there, if any. Rejects, leaving the map unchanged, exactly when
    /// the encoding exceeds the exam size bound.
    pub fn insert(&mut self, key: u64, e: Exam) -> (r: Result<Option<Exam>, StoreError>)
        requires
            old(self).wf(),
        ensures
            final(self).wf(),
            final(self).origin() == old(self).origin(),
            match r {
                Ok(prev) => {
                    &&& spec_encode_exam(e@).len() <= EXAM_MAX_SIZE
                    &&& final(self)@ == old(self)@.insert(key, e@)
                    &&& match prev {
                        Some(q) => old(self)@.contains_key(key) && q@ == old(self)@[key],
                        None => !old(self)@.contains_key(key),
                    }
                },
                Err(err) => {
                    &&& err == StoreError::RecordTooLarge
                    &&& spec_encode_exam(e@).len() > EXAM_MAX_SIZE
                    &&& final(self)@ == old(self)@
                },
            },
    {
        let bytes = encode_exam(&e);
        if bytes.len() > EXAM_MAX_SIZE {
            return Err(StoreError::RecordTooLarge);
        }
        proof {
            lemma_exam_round_trip(e@);
        }
        let prev_bytes = store_insert(&mut self.bytes, key, bytes);
        proof {
            assert(final(self)@ =~= old(self)@.insert(key, e@));
        }
        match prev_bytes {
            None => Ok(None),
            Some(pb) => match decode_exam(&pb) {
                Ok(q) => Ok(Some(q)),
                Err(_) => unreached(),
            },
        }
    }

    /// The number of live entries.
    pub fn len(&self) -> (n: u64)
        requires
            self.wf(),
        ensures
            n == self@.dom().len(),
            self@.dom().finite(),
    {
        let n = store_len(&self.bytes);
        proof {
            assert(self@.dom() =~= store_entries(self.bytes).dom());
        }
        n
    }
}

/// True of raw map contents every entry of which is an eight-byte value.
pub open spec fn participation_bytes_wf(m: Map<u64, Seq<u8>>) -> bool {
    &&& m.dom().finite()
    &&& forall|k: u64| #[trigger] m.dom().contains(k) ==> m[k].len() == PARTICIPATION_SIZE
}

/// The percentages encoded in raw map contents.
pub open spec fn decoded_participation(m: Map<u64, Seq<u8>>) -> Map<u64, u64> {
    Map::new(|k: u64| m.dom().contains(k), |k: u64| spec_u64_from_le_bytes(m[k]))
}

/// The flat persistent table of participation percentages, backed by one
/// sub-region.
pub struct ParticipationStore {
    bytes: ByteStore,
}

impl View for ParticipationStore {
    type V = Map<u64, u64>;

    closed spec fn view(&self) -> Map<u64, u64> {
        decoded_participation(store_entries(self.bytes))
    }
}

impl ParticipationStore {
    /// The store's invariant over its raw entries.
    pub closed spec fn wf(self) -> bool {
        participation_bytes_wf(store_entries(self.bytes))
    }

    /// Which partitioner's sub-region backs this store.
    pub closed spec fn origin(self) -> (int, u8) {
        store_origin(self.bytes)
    }

    /// Attaches to a sub-region, adopting the percentages recorded there.
    pub(crate) fn attach(s: SubRegion) -> (st: Self)
        requires
            participation_bytes_wf(sub_entries(s)),
        ensures
            st.wf(),
            st@ == decoded_participation(sub_entries(s)),
            st.origin() == sub_origin(s),
    {
        ParticipationStore { bytes: store_attach(s) }
    }

    /// Hands the backing sub-region back; it records exactly this store's
    /// percentages.
    pub(crate) fn detach(self) -> (s: SubRegion)
        requires
            self.wf(),
        ensures
            participation_bytes_wf(sub_entries(s)),
            decoded_participation(sub_entries(s)) == self@,
            sub_origin(s) == self.origin(),
    {
        store_detach(self.bytes)
    }

    /// Point lookup. Returns the percentage stored under the key, if any.
    pub fn get(&self, key: u64) -> (r: Option<u64>)
        requires
            self.wf(),
        ensures
            match r {
                Some(v) => self@.contains_key(key) && v == self@[key],
                None => !self@.contains_key(key),
            },
    {
        match store_get(&self.bytes, key) {
            None => None,
            Some(bytes) => {
                if bytes.len() == 8 {
                    Some(u64_from_le_bytes(bytes.as_slice()))
                } else {
                    unreached()
                }
            },
        }
    }

    /// Inserts or overwrites the percentage under the key, returning the
    /// previous value there, if any. Never fails: the encoding is fixed-size
    /// and within its bound.
    pub fn set(&mut self, key: u64, pct: u64) -> (prev: Option<u64>)
        requires
            old(self).wf(),
        ensures
            final(self).wf(),
            final(self).origin() == old(self).origin(),
            final(self)@ == old(self)@.insert(key, pct),
            match prev {
                Some(v) => old(self)@.contains_key(key) && v == old(self)@[key],
                None => !old(self)@.contains_key(key),
            },
    {
        let bytes = u64_to_le_bytes(pct);
        proof {
            lemma_auto_spec_u64_to_from_le_bytes();
        }
        let prev_bytes = store_insert(&mut self.bytes, key, bytes);
        proof {
            assert(final(self)@ =~= old(self)@.insert(key, pct));
        }
        match prev_bytes {
            None => None,
            Some(pb) => {
                if pb.len() == 8 {
                    Some(u64_from_le_bytes(pb.as_slice()))
                } else {
                    unreached()
                }
            },
        }
    }

    /// The number of live entries.
    pub fn len(&self) -> (n: u64)
        requires
            self.wf(),
        ensures
            n == self@.dom().len(),
            self@.dom().finite(),
    {
        let n = store_len(&self.bytes);
        proof {
            assert(self@.dom() =~= store_entries(self.bytes).dom());
        }
        n
    }
}

} // verus!
