use vstd::prelude::*;
use crate::exam::{spec_encode_exam, Exam, ExamView, EXAM_MAX_SIZE};
use crate::storage::{
    partitioner_attach, partitioner_detach, partitioner_put_back, partitioner_take,
    partitioner_taken, partitioner_token, region_part, region_wf, Partitioner, Region,
    PRIMARY_SUB_REGION, SECONDARY_SUB_REGION,
};
use crate::stores::{
    decoded_exams, decoded_participation, exam_bytes_wf, participation_bytes_wf, ExamStore,
    ParticipationStore, StoreError,
};

verus! {

/// The exams recorded in the primary sub-region of a durable region.
pub open spec fn region_exams(r: Region) -> Map<u64, ExamView> {
    decoded_exams(region_part(r, PRIMARY_SUB_REGION))
}

/// The participation percentages recorded in the secondary sub-region of a
/// durable region.
pub open spec fn region_participation(r: Region) -> Map<u64, u64> {
    decoded_participation(region_part(r, SECONDARY_SUB_REGION))
}

/// The exam store and the participation table, two independent maps carved
/// out of one durable region by its partitioner.
pub struct RecordsService {
    partitioner: Partitioner,
    exams: ExamStore,
    participation: ParticipationStore,
}

impl RecordsService {
    /// The exams currently stored.
    pub closed spec fn exams_view(self) -> Map<u64, ExamView> {
        self.exams@
    }

    /// The participation percentages currently stored.
    pub closed spec fn participation_view(self) -> Map<u64, u64> {
        self.participation@
    }

    /// The service invariant: both stores are well formed, exactly the two
    /// sub-region handles are out with them, and both handles came from this
    /// service's own partitioner.
    pub closed spec fn wf(self) -> bool {
        &&& self.exams.wf()
        &&& self.participation.wf()
        &&& partitioner_taken(self.partitioner) == Set::<u8>::empty().insert(
            PRIMARY_SUB_REGION,
        ).insert(SECONDARY_SUB_REGION)
        &&& self.exams.origin() == (partitioner_token(self.partitioner), PRIMARY_SUB_REGION)
        &&& self.participation.origin() == (
            partitioner_token(self.partitioner),
            SECONDARY_SUB_REGION,
        )
    }

    /// Attaches to a durable region, adopting every record stored there; a
    /// fresh region yields an empty service.
    pub fn init(region: Region) -> (s: Self)
        requires
            region_wf(region),
            exam_bytes_wf(region_part(region, PRIMARY_SUB_REGION)),
            participation_bytes_wf(region_part(region, SECONDARY_SUB_REGION)),
        ensures
            s.wf(),
            s.exams_view() == region_exams(region),
            s.participation_view() == region_participation(region),
    {
        let mut partitioner = partitioner_attach(region);
        let exam_sub = partitioner_take(&mut partitioner, PRIMARY_SUB_REGION);
        let part_sub = partitioner_take(&mut partitioner, SECONDARY_SUB_REGION);
        let exams = ExamStore::attach(exam_sub);
        let participation = ParticipationStore::attach(part_sub);
        RecordsService { partitioner, exams, participation }
    }

    /// Hands the durable region back; it records exactly this service's
    /// exams and percentages, ready to be attached to again.
    pub fn detach(self) -> (r: Region)
        requires
            self.wf(),
        ensures
            region_wf(r),
            exam_bytes_wf(region_part(r, PRIMARY_SUB_REGION)),
            participation_bytes_wf(region_part(r, SECONDARY_SUB_REGION)),
            region_exams(r) == self.exams_view(),
            region_participation(r) == self.participation_view(),
    {
        let RecordsService { mut partitioner, exams, participation } = self;
        let exam_sub = exams.detach();
        let part_sub = participation.detach();
        partitioner_put_back(&mut partitioner, PRIMARY_SUB_REGION, exam_sub);
        partitioner_put_back(&mut partitioner, SECONDARY_SUB_REGION, part_sub);
        proof {
            assert(partitioner_taken(partitioner) =~= Set::<u8>::empty());
        }
        partitioner_detach(partitioner)
    }

    /// Detaching the durable region and reattaching it, as a process restart
    /// does, preserves every stored record exactly.
    pub fn restart(self) -> (s: Self)
        requires
            self.wf(),
        ensures
            s.wf(),
            s.exams_view() == self.exams_view(),
            s.participation_view() == self.participation_view(),
    {
        let region = self.detach();
        Self::init(region)
    }

    /// Point lookup of an exam.
    pub fn get_exam(&self, key: u64) -> (r: Option<Exam>)
        requires
            self.wf(),
        ensures
            match r {
                Some(e) => self.exams_view().contains_key(key) && e@ == self.exams_view()[key],
                None => !self.exams_view().contains_key(key),
            },
    {
        self.exams.get(key)
    }

    /// Creates or replaces the exam under the key, returning the previous
    /// record there; the participation table is untouched. Rejects, leaving
    /// both maps unchanged, exactly when the encoding exceeds the exam size
    /// bound.
    pub fn create_exam(&mut self, key: u64, exam: Exam) -> (r: Result<Option<Exam>, StoreError>)
        requires
            old(self).wf(),
        ensures
            final(self).wf(),
            final(self).participation_view() == old(self).participation_view(),
            match r {
                Ok(prev) => {
                    &&& spec_encode_exam(exam@).len() <= EXAM_MAX_SIZE
                    &&& final(self).exams_view() == old(self).exams_view().insert(key, exam@)
                    &&& forall|k2: u64|
                        k2 != key && old(self).exams_view().contains_key(k2)
                            ==> final(self).exams_view()[k2] == old(self).exams_view()[k2]
                    &&& match prev {
                        Some(q) => old(self).exams_view().contains_key(key) && q@ == old(
                            self,
                        ).exams_view()[key],
                        None => !old(self).exams_view().contains_key(key),
                    }
                },
                Err(e) => {
                    &&& e == StoreError::RecordTooLarge
                    &&& spec_encode_exam(exam@).len() > EXAM_MAX_SIZE
                    &&& final(self).exams_view() == old(self).exams_view()
                },
            },
    {
        self.exams.insert(key, exam)
    }

    /// The number of exams stored.
    pub fn exam_count(&self) -> (n: u64)
        requires
            self.wf(),
        ensures
            n == self.exams_view().dom().len(),
            self.exams_view().dom().finite(),
    {
        self.exams.len()
    }

    /// Point lookup of a participation percentage.
    pub fn get_participation(&self, key: u64) -> (r: Option<u64>)
        requires
            self.wf(),
        ensures
            match r {
                Some(v) => self.participation_view().contains_key(key) && v
                    == self.participation_view()[key],
                None => !self.participation_view().contains_key(key),
            },
    {
        self.participation.get(key)
    }

    /// Sets the participation percentage under the key, returning the
    /// previous value there; the exam map is untouched. Never fails: the
    /// encoding is fixed-size and within its bound.
    pub fn set_participation(&mut self, key: u64, pct: u64) -> (prev: Option<u64>)
        requires
            old(self).wf(),
        ensures
            final(self).wf(),
            final(self).exams_view() == old(self).exams_view(),
            final(self).participation_view() == old(self).participation_view().insert(key, pct),
            match prev {
                Some(v) => old(self).participation_view().contains_key(key) && v == old(
                    self,
                ).participation_view()[key],
                None => !old(self).participation_view().contains_key(key),
            },
    {
        self.participation.set(key, pct)
    }

    /// The number of participation entries stored.
    pub fn participation_count(&self) -> (n: u64)
        requires
            self.wf(),
        ensures
            n == self.participation_view().dom().len(),
            self.participation_view().dom().finite(),
    {
        self.participation.len()
    }
}

} // verus!
