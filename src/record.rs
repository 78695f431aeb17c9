use crate::access::{AccessLevel, AccessList};
use crate::principal::Principal;
use vstd::prelude::*;

verus! {

/// What a record holds, as mathematical values.
pub struct RecordView {
    pub id: Seq<char>,
    pub patient: Seq<u8>,
    pub metadata: Seq<char>,
    pub data: Seq<char>,
    pub timestamp: u64,
    pub access: Map<Seq<u8>, AccessLevel>,
}

/// A fresh record: its creator is its only entry, as `Admin`.
pub open spec fn new_record_view(
    id: Seq<char>,
    patient: Seq<u8>,
    metadata: Seq<char>,
    data: Seq<char>,
    timestamp: u64,
) -> RecordView {
    RecordView {
        id,
        patient,
        metadata,
        data,
        timestamp,
        access: Map::empty().insert(patient, AccessLevel::Admin),
    }
}

/// A medical record: opaque metadata and data, the principal that created
/// it, the time of its last write, and its access list.
#[derive(Clone)]
pub struct MedicalRecord {
    id: String,
    patient: Principal,
    metadata: String,
    data: String,
    timestamp: u64,
    access_control: AccessList,
}

impl View for MedicalRecord {
    type V = RecordView;

    closed spec fn view(&self) -> RecordView {
        RecordView {
            id: self.id@,
            patient: self.patient@,
            metadata: self.metadata@,
            data: self.data@,
            timestamp: self.timestamp,
            access: self.access_control@,
        }
    }
}

impl MedicalRecord {
    pub closed spec fn wf(&self) -> bool {
        self.access_control.wf()
    }

    /// A record created by `patient`, who is its only entry, as `Admin`.
    pub fn new(id: String, patient: Principal, metadata: String, data: String, timestamp: u64) -> (r:
        MedicalRecord)
        ensures
            r.wf(),
            r@ == new_record_view(id@, patient@, metadata@, data@, timestamp),
    {
        let mut access_control = AccessList::new();
        access_control.set(patient.duplicate(), AccessLevel::Admin);
        MedicalRecord { id, patient, metadata, data, timestamp, access_control }
    }

    /// A record made of the given parts, as read back from storage or from
    /// the wire.
    pub fn from_parts(
        id: String,
        patient: Principal,
        metadata: String,
        data: String,
        timestamp: u64,
        access_control: AccessList,
    ) -> (r: MedicalRecord)
        requires
            access_control.wf(),
        ensures
            r.wf(),
            r@ == (RecordView {
                id: id@,
                patient: patient@,
                metadata: metadata@,
                data: data@,
                timestamp,
                access: access_control@,
            }),
    {
        MedicalRecord { id, patient, metadata, data, timestamp, access_control }
    }

    /// The record's access list.
    pub fn access_list(&self) -> (r: &AccessList)
        requires
            self.wf(),
        ensures
            r.wf(),
            r@ == self@.access,
    {
        &self.access_control
    }

    pub fn id(&self) -> (r: &String)
        ensures
            r@ == self@.id,
    {
        &self.id
    }

    pub fn patient(&self) -> (r: &Principal)
        ensures
            r@ == self@.patient,
    {
        &self.patient
    }

    pub fn metadata(&self) -> (r: &String)
        ensures
            r@ == self@.metadata,
    {
        &self.metadata
    }

    pub fn data(&self) -> (r: &String)
        ensures
            r@ == self@.data,
    {
        &self.data
    }

    pub fn timestamp(&self) -> (r: u64)
        ensures
            r == self@.timestamp,
    {
        self.timestamp
    }

    /// The level that `p` holds on this record, if any.
    pub fn access_level(&self, p: &Principal) -> (r: Option<AccessLevel>)
        requires
            self.wf(),
        ensures
            r == self@.access.get(p@),
    {
        self.access_control.level_of(p)
    }

    /// Overwrites the contents and the time of the last write.
    pub(crate) fn set_contents(&mut self, metadata: String, data: String, timestamp: u64)
        requires
            old(self).wf(),
        ensures
            final(self).wf(),
            final(self)@ == (RecordView {
                metadata: metadata@,
                data: data@,
                timestamp,
                ..old(self)@
            }),
    {
        self.metadata = metadata;
        self.data = data;
        self.timestamp = timestamp;
    }

    /// Sets `p`'s entry to `level`.
    pub(crate) fn grant(&mut self, p: Principal, level: AccessLevel)
        requires
            old(self).wf(),
        ensures
            final(self).wf(),
            final(self)@ == (RecordView { access: old(self)@.access.insert(p@, level), ..old(self)@ }),
    {
        self.access_control.set(p, level);
    }

    /// Takes out `p`'s entry.
    pub(crate) fn revoke(&mut self, p: &Principal)
        requires
            old(self).wf(),
        ensures
            final(self).wf(),
            final(self)@ == (RecordView { access: old(self)@.access.remove(p@), ..old(self)@ }),
    {
        self.access_control.remove(p);
    }

    /// A copy of this record.
    pub fn duplicate(&self) -> (r: MedicalRecord)
        requires
            self.wf(),
        ensures
            r.wf(),
            r@ == self@,
    {
        MedicalRecord {
            id: self.id.clone(),
            patient: self.patient.duplicate(),
            metadata: self.metadata.clone(),
            data: self.data.clone(),
            timestamp: self.timestamp,
            access_control: self.access_control.duplicate(),
        }
    }
}

} // verus!
