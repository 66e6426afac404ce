use vstd::prelude::*;

use crate::errors::VaultError;
use crate::provider::KakaduProvider;
use crate::model::{
    group_views, lemma_group_views_push, lemma_group_views_remove, lemma_group_views_update,
    lemma_max_group_id_ge, lemma_max_record_id_ge, lemma_record_views_remove, lemma_wf_push_group, lemma_wf_remove_group, lemma_wf_remove_record,
    lemma_wf_update_group, max_group_id, max_record_id, record_views, records_with_pid, Group,
    GroupView, PasswordData, PasswordDataView, Record, RecordView,
};
use vstd::string::StringExecFns;

verus! {

/// The root group that every fresh vault starts with.
pub open spec fn root_group_view() -> GroupView {
    GroupView { id: 1, pid: 0, name: "NewDatabase"@ }
}

/// True when some group in the sequence carries the given id.
pub open spec fn has_group_id(gs: Seq<GroupView>, id: u32) -> bool {
    exists|i: int| 0 <= i < gs.len() && gs[i].id == id
}

/// True when some record in the sequence carries the given id.
pub open spec fn has_record_id(rs: Seq<RecordView>, id: u32) -> bool {
    exists|i: int| 0 <= i < rs.len() && rs[i].id == id
}

impl PasswordData {
    /// A vault holding exactly the root group and no records.
    pub fn create_fresh() -> (r: PasswordData)
        ensures
            r@.groups =~= seq![root_group_view()],
            r@.records =~= Seq::<RecordView>::empty(),
            r@.wf(),
    {
        let root = Group { id: 1, pid: 0, name: String::from_str("NewDatabase") };
        let data = PasswordData { groups: vec![root], records: Vec::new() };
        proof {
            assert(data@.groups =~= seq![root_group_view()]);
            assert(data@.records =~= Seq::<RecordView>::empty());
        }
        data
    }

    /// The largest id used by any group or record, 0 when there is none.
    pub fn max_id(&self) -> (r: u32)
        ensures
            r as int == self@.max_id(),
    {
        let mut m: u32 = 0;
        let mut i: usize = 0;
        while i < self.groups.len()
            invariant
                i <= self.groups.len(),
                m as int == max_group_id(self@.groups.take(i as int)),
            decreases self.groups.len() - i,
        {
            proof {
                assert(self@.groups.take(i + 1).drop_last() =~= self@.groups.take(i as int));
                assert(self@.groups.take(i + 1).last() == self@.groups[i as int]);
            }
            if self.groups[i].id > m {
                m = self.groups[i].id;
            }
            i += 1;
        }
        proof {
            assert(self@.groups.take(self.groups.len() as int) =~= self@.groups);
        }
        let mut j: usize = 0;
        let g_max = m;
        while j < self.records.len()
            invariant
                j <= self.records.len(),
                g_max as int == max_group_id(self@.groups),
                m as int == if max_record_id(self@.records.take(j as int)) > g_max as int {
                    max_record_id(self@.records.take(j as int))
                } else {
                    g_max as int
                },
            decreases self.records.len() - j,
        {
            proof {
                assert(self@.records.take(j + 1).drop_last() =~= self@.records.take(j as int));
                assert(self@.records.take(j + 1).last() == self@.records[j as int]);
            }
            if self.records[j].id > m {
                m = self.records[j].id;
            }
            j += 1;
        }
        proof {
            assert(self@.records.take(self.records.len() as int) =~= self@.records);
        }
        m
    }

    /// Appends a new group under `parent_id` with a freshly allocated id,
    /// one greater than every id already in use.
    pub fn add_group(&mut self, parent_id: u32, name: String) -> (g: Group)
        requires
            old(self)@.max_id() < u32::MAX,
        ensures
            g@ == (GroupView {
                id: (old(self)@.max_id() + 1) as u32,
                pid: parent_id,
                name: name@,
            }),
            final(self)@.groups =~= old(self)@.groups.push(g@),
            final(self)@.records =~= old(self)@.records,
            forall|i: int| 0 <= i < old(self)@.groups.len() ==> old(self)@.groups[i].id < g@.id,
            forall|i: int| 0 <= i < old(self)@.records.len() ==> old(self)@.records[i].id < g@.id,
            old(self)@.wf() ==> final(self)@.wf(),
    {
        let m = self.max_id();
        let g = Group { id: m + 1, pid: parent_id, name };
        let g_ret = g.clone();
        self.groups.push(g);
        proof {
            let oldv = old(self)@;
            lemma_group_views_push(old(self).groups@, g);
            assert(self@.groups =~= oldv.groups.push(g_ret@));
            assert(self@.records =~= oldv.records);
            assert forall|i: int| 0 <= i < oldv.groups.len() implies oldv.groups[i].id
                < g_ret@.id by {
                lemma_max_group_id_ge(oldv.groups, i);
            }
            assert forall|i: int| 0 <= i < oldv.records.len() implies oldv.records[i].id
                < g_ret@.id by {
                lemma_max_record_id_ge(oldv.records, i);
            }
            if oldv.wf() {
                lemma_wf_push_group(oldv, g_ret@);
                assert(self@ == (PasswordDataView {
                    groups: oldv.groups.push(g_ret@),
                    records: oldv.records,
                }));
            }
        }
        g_ret
    }

    /// Renames the first group carrying the given id; fails with
    /// `NotFoundError`, leaving the vault untouched, when there is none.
    pub fn rename_group(&mut self, id: u32, new_name: String) -> (r: Result<Group, VaultError>)
        ensures
            r is Ok <==> has_group_id(old(self)@.groups, id),
            r matches Ok(g) ==> exists|i: int|
                {
                    &&& 0 <= i < old(self)@.groups.len()
                    &&& #[trigger] old(self)@.groups[i].id == id
                    &&& forall|j: int| 0 <= j < i ==> old(self)@.groups[j].id != id
                    &&& g@ == (GroupView { id, pid: old(self)@.groups[i].pid, name: new_name@ })
                    &&& final(self)@.groups =~= old(self)@.groups.update(i, g@)
                },
            r matches Err(e) ==> e == VaultError::NotFoundError && final(self)@ == old(self)@,
            final(self)@.records =~= old(self)@.records,
            old(self)@.wf() ==> final(self)@.wf(),
    {
        let mut i: usize = 0;
        while i < self.groups.len()
            invariant
                i <= self.groups.len(),
                *self == *old(self),
                forall|j: int| 0 <= j < i ==> old(self)@.groups[j].id != id,
            decreases self.groups.len() - i,
        {
            if self.groups[i].id == id {
                proof {
                    assert(old(self)@.groups[i as int].id == id);
                    assert(has_group_id(old(self)@.groups, id));
                }
                self.groups[i].name = new_name;
                let g = self.groups[i].clone();
                proof {
                    let oldv = old(self)@;
                    let ghost gi = i as int;
                    lemma_group_views_update(old(self).groups@, gi, self.groups@[gi]);
                    assert(self@.groups =~= oldv.groups.update(gi, g@));
                    assert(self@.records =~= oldv.records);
                    if oldv.wf() {
                        lemma_wf_update_group(oldv, gi, g@);
                        assert(self@ == (PasswordDataView {
                            groups: oldv.groups.update(gi, g@),
                            records: oldv.records,
                        }));
                    }
                    assert({
                        &&& 0 <= gi < oldv.groups.len()
                        &&& oldv.groups[gi].id == id
                        &&& forall|j: int| 0 <= j < gi ==> oldv.groups[j].id != id
                        &&& g@ == (GroupView { id, pid: oldv.groups[gi].pid, name: new_name@ })
                        &&& self@.groups =~= oldv.groups.update(gi, g@)
                    });
                    assert(exists|ii: int|
                        {
                            &&& 0 <= ii < oldv.groups.len()
                            &&& #[trigger] oldv.groups[ii].id == id
                            &&& forall|j: int| 0 <= j < ii ==> oldv.groups[j].id != id
                            &&& g@ == (GroupView {
                                id,
                                pid: oldv.groups[ii].pid,
                                name: new_name@,
                            })
                            &&& self@.groups =~= oldv.groups.update(ii, g@)
                        });
                }
                return Ok(g);
            }
            i += 1;
        }
        proof {
            assert(!has_group_id(old(self)@.groups, id));
        }
        Err(VaultError::NotFoundError)
    }

    /// Removes the first group carrying the given id and returns that id;
    /// fails with `NotFoundError`, leaving the vault untouched, when there
    /// is none.  Children are not cascaded: orphans are tolerated.
    pub fn remove_group(&mut self, id: u32) -> (r: Result<u32, VaultError>)
        ensures
            r is Ok <==> has_group_id(old(self)@.groups, id),
            r matches Ok(removed) ==> removed == id && exists|i: int|
                {
                    &&& 0 <= i < old(self)@.groups.len()
                    &&& old(self)@.groups[i].id == id
                    &&& forall|j: int| 0 <= j < i ==> old(self)@.groups[j].id != id
                    &&& final(self)@.groups =~= old(self)@.groups.remove(i)
                },
            r matches Err(e) ==> e == VaultError::NotFoundError && final(self)@ == old(self)@,
            final(self)@.records =~= old(self)@.records,
            old(self)@.wf() ==> final(self)@.wf(),
    {
        let mut i: usize = 0;
        while i < self.groups.len()
            invariant
                i <= self.groups.len(),
                *self == *old(self),
                forall|j: int| 0 <= j < i ==> old(self)@.groups[j].id != id,
            decreases self.groups.len() - i,
        {
            if self.groups[i].id == id {
                proof {
                    assert(old(self)@.groups[i as int].id == id);
                    assert(has_group_id(old(self)@.groups, id));
                }
                self.groups.remove(i);
                proof {
                    let oldv = old(self)@;
                    let ghost gi = i as int;
                    lemma_group_views_remove(old(self).groups@, gi);
                    assert(self@.groups =~= oldv.groups.remove(gi));
                    assert(self@.records =~= oldv.records);
                    if oldv.wf() {
                        lemma_wf_remove_group(oldv, gi);
                        assert(self@ == (PasswordDataView {
                            groups: oldv.groups.remove(gi),
                            records: oldv.records,
                        }));
                    }
                    assert({
                        &&& 0 <= gi < oldv.groups.len()
                        &&& oldv.groups[gi].id == id
                        &&& forall|j: int| 0 <= j < gi ==> oldv.groups[j].id != id
                        &&& self@.groups =~= oldv.groups.remove(gi)
                    });
                }
                return Ok(id);
            }
            i += 1;
        }
        proof {
            assert(!has_group_id(old(self)@.groups, id));
        }
        Err(VaultError::NotFoundError)
    }

    /// Removes the first record carrying the given id and returns that id;
    /// fails with `NotFoundError`, leaving the vault untouched, when there
    /// is none.
    pub fn remove_record(&mut self, id: u32) -> (r: Result<u32, VaultError>)
        ensures
            r is Ok <==> has_record_id(old(self)@.records, id),
            r matches Ok(removed) ==> removed == id && exists|i: int|
                {
                    &&& 0 <= i < old(self)@.records.len()
                    &&& old(self)@.records[i].id == id
                    &&& forall|j: int| 0 <= j < i ==> old(self)@.records[j].id != id
                    &&& final(self)@.records =~= old(self)@.records.remove(i)
                },
            r matches Err(e) ==> e == VaultError::NotFoundError && final(self)@ == old(self)@,
            final(self)@.groups =~= old(self)@.groups,
            old(self)@.wf() ==> final(self)@.wf(),
    {
        let mut i: usize = 0;
        while i < self.records.len()
            invariant
                i <= self.records.len(),
                *self == *old(self),
                forall|j: int| 0 <= j < i ==> old(self)@.records[j].id != id,
            decreases self.records.len() - i,
        {
            if self.records[i].id == id {
                proof {
                    assert(old(self)@.records[i as int].id == id);
                    assert(has_record_id(old(self)@.records, id));
                }
                self.records.remove(i);
                proof {
                    let oldv = old(self)@;
                    let ghost ri = i as int;
                    lemma_record_views_remove(old(self).records@, ri);
                    assert(self@.records =~= oldv.records.remove(ri));
                    assert(self@.groups =~= oldv.groups);
                    if oldv.wf() {
                        lemma_wf_remove_record(oldv, ri);
                        assert(self@ == (PasswordDataView {
                            groups: oldv.groups,
                            records: oldv.records.remove(ri),
                        }));
                    }
                    assert({
                        &&& 0 <= ri < oldv.records.len()
                        &&& oldv.records[ri].id == id
                        &&& forall|j: int| 0 <= j < ri ==> oldv.records[j].id != id
                        &&& self@.records =~= oldv.records.remove(ri)
                    });
                }
                return Ok(id);
            }
            i += 1;
        }
        proof {
            assert(!has_record_id(old(self)@.records, id));
        }
        Err(VaultError::NotFoundError)
    }

    /// A snapshot (clones) of all groups, in storage order.
    pub fn list_groups(&self) -> (r: Vec<Group>)
        ensures
            group_views(r@) =~= self@.groups,
    {
        let mut out: Vec<Group> = Vec::new();
        let mut i: usize = 0;
        while i < self.groups.len()
            invariant
                i <= self.groups.len(),
                out@.len() == i,
                forall|k: int| 0 <= k < i ==> out@[k]@ == self@.groups[k],
            decreases self.groups.len() - i,
        {
            out.push(self.groups[i].clone());
            i += 1;
        }
        proof {
            assert forall|k: int| 0 <= k < self@.groups.len() implies group_views(out@)[k]
                == self@.groups[k] by {}
        }
        out
    }

    /// A snapshot (clones) of the records owned by the given group, in
    /// storage order.
    pub fn list_records(&self, parent_id: u32) -> (r: Vec<Record>)
        ensures
            record_views(r@) =~= records_with_pid(self@.records, parent_id),
    {
        let mut out: Vec<Record> = Vec::new();
        let ghost mut ov: Seq<RecordView> = Seq::empty();
        let mut i: usize = 0;
        proof {
            reveal(Seq::filter);
            assert(self@.records.take(0).filter(|rv: RecordView| rv.pid == parent_id)
                =~= Seq::<RecordView>::empty());
        }
        while i < self.records.len()
            invariant
                i <= self.records.len(),
                ov == records_with_pid(self@.records.take(i as int), parent_id),
                out@.len() == ov.len(),
                forall|k: int| 0 <= k < ov.len() ==> out@[k]@ == ov[k],
            decreases self.records.len() - i,
        {
            proof {
                assert(self@.records.take(i + 1).drop_last() =~= self@.records.take(i as int));
                assert(self@.records.take(i + 1).last() == self@.records[i as int]);
            }
            if self.records[i].pid == parent_id {
                out.push(self.records[i].clone());
                proof {
                    reveal(Seq::filter);
                    ov = ov.push(self@.records[i as int]);
                    assert(records_with_pid(self@.records.take(i + 1), parent_id)
                        =~= records_with_pid(self@.records.take(i as int), parent_id).push(
                        self@.records[i as int],
                    ));
                }
            } else {
                proof {
                    reveal(Seq::filter);
                    assert(records_with_pid(self@.records.take(i + 1), parent_id)
                        =~= records_with_pid(self@.records.take(i as int), parent_id));
                }
            }
            i += 1;
        }
        proof {
            assert(self@.records.take(self.records.len() as int) =~= self@.records);
            assert forall|k: int| 0 <= k < ov.len() implies record_views(out@)[k] == ov[k] by {}
            assert(record_views(out@) =~= ov);
        }
        out
    }
}

/// The application's vault store: it owns the (optional) vault aggregate
/// and mediates every read and write.  The shell around the library is
/// expected to wrap one instance in its own mutual-exclusion guard and
/// keep every operation inside one critical section.
pub struct AppState {
    pub password_data: Option<PasswordData>,
}

impl AppState {
    /// True when a vault is currently held.
    pub open spec fn has_data(&self) -> bool {
        self.password_data is Some
    }

    /// The view of the held vault (meaningful only when `has_data`).
    pub open spec fn data_view(&self) -> PasswordDataView {
        match self.password_data {
            Some(d) => d@,
            None => PasswordDataView { groups: Seq::empty(), records: Seq::empty() },
        }
    }

    /// The store's invariant: whatever vault is held is well formed.
    pub open spec fn wf(&self) -> bool {
        self.has_data() ==> self.data_view().wf()
    }

    /// A fresh store holding a vault with exactly the root group.
    pub fn new() -> (r: AppState)
        ensures
            r.has_data(),
            r.data_view().groups =~= seq![root_group_view()],
            r.data_view().records =~= Seq::<RecordView>::empty(),
            r.wf(),
    {
        AppState { password_data: Some(PasswordData::create_fresh()) }
    }

    /// The root group of a fresh vault.
    pub fn create_root_group() -> (g: Group)
        ensures
            g@ == root_group_view(),
    {
        Group { id: 1, pid: 0, name: String::from_str("NewDatabase") }
    }

    /// Resets the group list to exactly the root group; records are kept.
    pub fn clear_group_list(&mut self) -> (r: Result<(), VaultError>)
        ensures
            r is Ok <==> old(self).has_data(),
            r is Err ==> r == Err::<(), VaultError>(VaultError::NoDataError) && !final(self).has_data(),
            r is Ok ==> final(self).has_data() && final(self).data_view().groups =~= seq![
                root_group_view(),
            ] && final(self).data_view().records =~= old(self).data_view().records,
            old(self).wf() && (forall|i: int|
                0 <= i < old(self).data_view().records.len() ==> old(self).data_view().records[i].id != 1) ==> final(self).wf(),
    {
        match self.password_data.take() {
            Option::None => Err(VaultError::NoDataError),
            Option::Some(mut d) => {
                d.groups.clear();
                d.groups.push(AppState::create_root_group());
                proof {
                    assert(d@.groups =~= seq![root_group_view()]);
                }
                self.password_data = Some(d);
                Ok(())
            },
        }
    }

    /// Allocates a fresh id (one greater than every id in use) and appends
    /// a new group under `group_id`.
    pub fn new_group(&mut self, group_id: u32, group_name: String) -> (r: Result<
        Group,
        VaultError,
    >)
        requires
            old(self).has_data() ==> old(self).data_view().max_id() < u32::MAX,
        ensures
            r is Ok <==> old(self).has_data(),
            r is Err ==> r == Err::<Group, VaultError>(VaultError::NoDataError) && !final(self).has_data(),
            r matches Ok(g) ==> {
                &&& final(self).has_data()
                &&& g@ == (GroupView {
                    id: (old(self).data_view().max_id() + 1) as u32,
                    pid: group_id,
                    name: group_name@,
                })
                &&& final(self).data_view().groups =~= old(self).data_view().groups.push(g@)
                &&& final(self).data_view().records =~= old(self).data_view().records
                &&& forall|i: int|
                    0 <= i < old(self).data_view().groups.len() ==> old(self).data_view().groups[i].id < g@.id
                &&& forall|i: int|
                    0 <= i < old(self).data_view().records.len() ==> old(self).data_view().records[i].id < g@.id
            },
            old(self).wf() ==> final(self).wf(),
    {
        match self.password_data.take() {
            Option::None => Err(VaultError::NoDataError),
            Option::Some(mut d) => {
                let g = d.add_group(group_id, group_name);
                self.password_data = Some(d);
                Ok(g)
            },
        }
    }

    /// Renames the group carrying the given id.
    pub fn edit_group(&mut self, group_id: u32, new_name: String) -> (r: Result<Group, VaultError>)
        ensures
            !old(self).has_data() ==> r == Err::<Group, VaultError>(VaultError::NoDataError)
                && !final(self).has_data(),
            old(self).has_data() ==> final(self).has_data() && (r is Ok <==> has_group_id(
                old(self).data_view().groups,
                group_id,
            )),
            r matches Ok(g) ==> exists|i: int|
                {
                    &&& 0 <= i < old(self).data_view().groups.len()
                    &&& old(self).data_view().groups[i].id == group_id
                    &&& forall|j: int|
                        0 <= j < i ==> old(self).data_view().groups[j].id != group_id
                    &&& g@ == (GroupView {
                        id: group_id,
                        pid: old(self).data_view().groups[i].pid,
                        name: new_name@,
                    })
                    &&& final(self).data_view().groups =~= old(self).data_view().groups.update(
                        i,
                        g@,
                    )
                },
            old(self).has_data() && r is Err ==> r == Err::<Group, VaultError>(
                VaultError::NotFoundError,
            ) && final(self).data_view() == old(self).data_view(),
            old(self).has_data() ==> final(self).data_view().records =~= old(self).data_view().records,
            old(self).wf() ==> final(self).wf(),
    {
        match self.password_data.take() {
            Option::None => Err(VaultError::NoDataError),
            Option::Some(mut d) => {
                let r = d.rename_group(group_id, new_name);
                self.password_data = Some(d);
                r
            },
        }
    }

    /// Removes the group carrying the given id; orphans are tolerated.
    pub fn delete_group(&mut self, group_id: u32) -> (r: Result<u32, VaultError>)
        ensures
            !old(self).has_data() ==> r == Err::<u32, VaultError>(VaultError::NoDataError)
                && !final(self).has_data(),
            old(self).has_data() ==> final(self).has_data() && (r is Ok <==> has_group_id(
                old(self).data_view().groups,
                group_id,
            )),
            r matches Ok(removed) ==> removed == group_id && exists|i: int|
                {
                    &&& 0 <= i < old(self).data_view().groups.len()
                    &&& old(self).data_view().groups[i].id == group_id
                    &&& forall|j: int|
                        0 <= j < i ==> old(self).data_view().groups[j].id != group_id
                    &&& final(self).data_view().groups =~= old(self).data_view().groups.remove(i)
                },
            old(self).has_data() && r is Err ==> r == Err::<u32, VaultError>(
                VaultError::NotFoundError,
            ) && final(self).data_view() == old(self).data_view(),
            old(self).has_data() ==> final(self).data_view().records =~= old(self).data_view().records,
            old(self).wf() ==> final(self).wf(),
    {
        match self.password_data.take() {
            Option::None => Err(VaultError::NoDataError),
            Option::Some(mut d) => {
                let r = d.remove_group(group_id);
                self.password_data = Some(d);
                r
            },
        }
    }

    /// Removes the record carrying the given id.
    pub fn delete_record(&mut self, record_id: u32) -> (r: Result<u32, VaultError>)
        ensures
            !old(self).has_data() ==> r == Err::<u32, VaultError>(VaultError::NoDataError)
                && !final(self).has_data(),
            old(self).has_data() ==> final(self).has_data() && (r is Ok <==> has_record_id(
                old(self).data_view().records,
                record_id,
            )),
            r matches Ok(removed) ==> removed == record_id && exists|i: int|
                {
                    &&& 0 <= i < old(self).data_view().records.len()
                    &&& old(self).data_view().records[i].id == record_id
                    &&& forall|j: int|
                        0 <= j < i ==> old(self).data_view().records[j].id != record_id
                    &&& final(self).data_view().records =~= old(self).data_view().records.remove(i)
                },
            old(self).has_data() && r is Err ==> r == Err::<u32, VaultError>(
                VaultError::NotFoundError,
            ) && final(self).data_view() == old(self).data_view(),
            old(self).has_data() ==> final(self).data_view().groups =~= old(self).data_view().groups,
            old(self).wf() ==> final(self).wf(),
    {
        match self.password_data.take() {
            Option::None => Err(VaultError::NoDataError),
            Option::Some(mut d) => {
                let r = d.remove_record(record_id);
                self.password_data = Some(d);
                r
            },
        }
    }


    /// Decodes an encrypted vault file image and, on success, replaces
    /// the held vault with the decoded one; on failure the store is left
    /// untouched.
    pub fn load_from_bytes(&mut self, encrypted: &Vec<u8>, password: &str) -> (r: Result<
        (),
        VaultError,
    >)
        ensures
            r is Ok <==> (encrypted@.len() % 16 == 0 && crate::codec::p_doc(
                crate::cipher::strip16(
                    crate::cipher::dec_bytes(crate::cipher::derived_key_of(password@), encrypted@),
                ),
            ) is Some),
            r is Ok ==> final(self).has_data() && crate::codec::p_doc(
                crate::cipher::strip16(
                    crate::cipher::dec_bytes(crate::cipher::derived_key_of(password@), encrypted@),
                ),
            ) == Some(final(self).data_view()),
            r matches Err(e) ==> e == VaultError::FormatError && final(self).has_data() == old(
                self,
            ).has_data() && final(self).data_view() == old(self).data_view(),
    {
        let provider = KakaduProvider;
        match provider.open_from_bytes(encrypted, password) {
            Ok(d) => {
                self.password_data = Some(d);
                Ok(())
            },
            Err(e) => Err(e),
        }
    }

    /// Serializes and encrypts the held vault into a file image; fails
    /// with `NoDataError` when no vault is held.
    pub fn save_to_bytes(&self, password: &str) -> (r: Result<Vec<u8>, VaultError>)
        requires
            self.has_data() ==> crate::codec::ser_vault(self.data_view()).len() + 16 <= usize::MAX,
        ensures
            r is Ok <==> self.has_data(),
            r is Err ==> r == Err::<Vec<u8>, VaultError>(VaultError::NoDataError),
            r matches Ok(c) ==> c@ == crate::cipher::enc_bytes(
                crate::cipher::derived_key_of(password@),
                crate::cipher::pad16(crate::codec::ser_vault(self.data_view())),
            ) && crate::cipher::dec_bytes(crate::cipher::derived_key_of(password@), c@)
                == crate::cipher::pad16(crate::codec::ser_vault(self.data_view())),
    {
        let provider = KakaduProvider;
        match &self.password_data {
            Option::None => Err(VaultError::NoDataError),
            Option::Some(d) => provider.save_to_bytes(d, password),
        }
    }

    /// A snapshot of all groups.
    pub fn get_groups(&self) -> (r: Result<Vec<Group>, VaultError>)
        ensures
            r is Ok <==> self.has_data(),
            r matches Ok(gs) ==> group_views(gs@) =~= self.data_view().groups,
            r is Err ==> r == Err::<Vec<Group>, VaultError>(VaultError::NoDataError),
    {
        match &self.password_data {
            Option::None => Err(VaultError::NoDataError),
            Option::Some(d) => Ok(d.list_groups()),
        }
    }

    /// A snapshot of the records owned by the given group.
    pub fn get_records_by_group(&self, group_id: u32) -> (r: Result<Vec<Record>, VaultError>)
        ensures
            r is Ok <==> self.has_data(),
            r matches Ok(rs) ==> record_views(rs@) =~= records_with_pid(
                self.data_view().records,
                group_id,
            ),
            r is Err ==> r == Err::<Vec<Record>, VaultError>(VaultError::NoDataError),
    {
        match &self.password_data {
            Option::None => Err(VaultError::NoDataError),
            Option::Some(d) => Ok(d.list_records(group_id)),
        }
    }
}

} // verus!
