use vstd::prelude::*;

verus! {

/// Follow-up keystroke emitted after auto-filling a field.
///
/// On disk the variants appear as the uppercase strings
/// `"TAB"`, `"ENTER"`, `"SPACE"` and `"NONE"`.
#[derive(Clone, Copy, Debug, PartialEq, Eq, Structural)]
pub enum InputSymbol {
    Tab,
    Enter,
    Space,
    NoSymbol,
}

/// A named category node of the vault.
#[derive(Debug, PartialEq, Eq)]
pub struct Group {
    /// Unique positive identifier, shared id space with records.
    pub id: u32,
    /// Id of the containing group; `0` denotes the implicit root.
    pub pid: u32,
    pub name: String,
}

/// A single credential entry.
#[derive(Debug, PartialEq, Eq)]
pub struct Record {
    /// Unique positive identifier, shared id space with groups.
    pub id: u32,
    /// Id of the owning group.
    pub pid: u32,
    pub name: String,
    pub login: String,
    pub password: String,
    pub url: String,
    pub login_symbol: InputSymbol,
    pub password_symbol: InputSymbol,
    pub url_symbol: InputSymbol,
}

/// The vault aggregate: groups plus records, order-irrelevant.
#[derive(Debug, PartialEq, Eq)]
pub struct PasswordData {
    pub groups: Vec<Group>,
    pub records: Vec<Record>,
}

pub ghost struct GroupView {
    pub id: u32,
    pub pid: u32,
    pub name: Seq<char>,
}

pub ghost struct RecordView {
    pub id: u32,
    pub pid: u32,
    pub name: Seq<char>,
    pub login: Seq<char>,
    pub password: Seq<char>,
    pub url: Seq<char>,
    pub login_symbol: InputSymbol,
    pub password_symbol: InputSymbol,
    pub url_symbol: InputSymbol,
}

pub ghost struct PasswordDataView {
    pub groups: Seq<GroupView>,
    pub records: Seq<RecordView>,
}

impl View for Group {
    type V = GroupView;

    open spec fn view(&self) -> GroupView {
        GroupView { id: self.id, pid: self.pid, name: self.name@ }
    }
}

impl View for Record {
    type V = RecordView;

    open spec fn view(&self) -> RecordView {
        RecordView {
            id: self.id,
            pid: self.pid,
            name: self.name@,
            login: self.login@,
            password: self.password@,
            url: self.url@,
            login_symbol: self.login_symbol,
            password_symbol: self.password_symbol,
            url_symbol: self.url_symbol,
        }
    }
}

/// The views of a sequence of groups, in order.
pub open spec fn group_views(gs: Seq<Group>) -> Seq<GroupView> {
    gs.map_values(|g: Group| g@)
}

/// The views of a sequence of records, in order.
pub open spec fn record_views(rs: Seq<Record>) -> Seq<RecordView> {
    rs.map_values(|r: Record| r@)
}

impl View for PasswordData {
    type V = PasswordDataView;

    open spec fn view(&self) -> PasswordDataView {
        PasswordDataView { groups: group_views(self.groups@), records: record_views(self.records@) }
    }
}

impl Clone for Group {
    fn clone(&self) -> (r: Group)
        ensures
            r@ == self@,
    {
        Group { id: self.id, pid: self.pid, name: self.name.clone() }
    }
}

impl Clone for Record {
    fn clone(&self) -> (r: Record)
        ensures
            r@ == self@,
    {
        Record {
            id: self.id,
            pid: self.pid,
            name: self.name.clone(),
            login: self.login.clone(),
            password: self.password.clone(),
            url: self.url.clone(),
            login_symbol: self.login_symbol,
            password_symbol: self.password_symbol,
            url_symbol: self.url_symbol,
        }
    }
}

impl Clone for PasswordData {
    fn clone(&self) -> (r: PasswordData)
        ensures
            r@ == self@,
    {
        let mut groups: Vec<Group> = Vec::new();
        let mut i: usize = 0;
        while i < self.groups.len()
            invariant
                i <= self.groups@.len(),
                groups@.len() == i,
                forall|k: int| 0 <= k < i ==> groups@[k]@ == self.groups@[k]@,
            decreases self.groups.len() - i,
        {
            groups.push(self.groups[i].clone());
            i += 1;
        }
        let mut records: Vec<Record> = Vec::new();
        let mut j: usize = 0;
        while j < self.records.len()
            invariant
                j <= self.records@.len(),
                records@.len() == j,
                forall|k: int| 0 <= k < j ==> records@[k]@ == self.records@[k]@,
            decreases self.records.len() - j,
        {
            records.push(self.records[j].clone());
            j += 1;
        }
        let r = PasswordData { groups, records };
        proof {
            assert forall|k: int| 0 <= k < r@.groups.len() implies r@.groups[k]
                == self@.groups[k] by {}
            assert forall|k: int| 0 <= k < r@.records.len() implies r@.records[k]
                == self@.records[k] by {}
            assert(r@.groups =~= self@.groups);
            assert(r@.records =~= self@.records);
        }
        r
    }
}

impl PasswordDataView {
    /// The structural invariant of the vault: every id is positive and no
    /// two groups or records (across both collections) share an id.
    pub open spec fn wf(self) -> bool {
        &&& forall|i: int, j: int|
            0 <= i < j < self.groups.len() ==> self.groups[i].id != self.groups[j].id
        &&& forall|i: int, j: int|
            0 <= i < j < self.records.len() ==> self.records[i].id != self.records[j].id
        &&& forall|i: int, j: int|
            0 <= i < self.groups.len() && 0 <= j < self.records.len() ==> self.groups[i].id
                != self.records[j].id
        &&& forall|i: int| 0 <= i < self.groups.len() ==> self.groups[i].id >= 1
        &&& forall|i: int| 0 <= i < self.records.len() ==> self.records[i].id >= 1
    }

    /// The largest id currently in use, or 0 for an entirely empty vault.
    pub open spec fn max_id(self) -> int {
        let g = max_group_id(self.groups);
        let r = max_record_id(self.records);
        if g > r {
            g
        } else {
            r
        }
    }
}

pub open spec fn max_group_id(gs: Seq<GroupView>) -> int
    decreases gs.len(),
{
    if gs.len() == 0 {
        0
    } else {
        let rest = max_group_id(gs.drop_last());
        if gs.last().id > rest {
            gs.last().id as int
        } else {
            rest
        }
    }
}

pub open spec fn max_record_id(rs: Seq<RecordView>) -> int
    decreases rs.len(),
{
    if rs.len() == 0 {
        0
    } else {
        let rest = max_record_id(rs.drop_last());
        if rs.last().id > rest {
            rs.last().id as int
        } else {
            rest
        }
    }
}

pub proof fn lemma_max_group_id_ge(gs: Seq<GroupView>, i: int)
    requires
        0 <= i < gs.len(),
    ensures
        gs[i].id <= max_group_id(gs),
        max_group_id(gs) >= 0,
    decreases gs.len(),
{
    if i == gs.len() - 1 {
        if gs.len() > 1 {
            lemma_max_group_id_ge(gs.drop_last(), 0);
        }
    } else {
        lemma_max_group_id_ge(gs.drop_last(), i);
        assert(gs.drop_last()[i] == gs[i]);
    }
}

pub proof fn lemma_max_record_id_ge(rs: Seq<RecordView>, i: int)
    requires
        0 <= i < rs.len(),
    ensures
        rs[i].id <= max_record_id(rs),
        max_record_id(rs) >= 0,
    decreases rs.len(),
{
    if i == rs.len() - 1 {
        if rs.len() > 1 {
            lemma_max_record_id_ge(rs.drop_last(), 0);
        }
    } else {
        lemma_max_record_id_ge(rs.drop_last(), i);
        assert(rs.drop_last()[i] == rs[i]);
    }
}

pub proof fn lemma_group_views_push(s: Seq<Group>, x: Group)
    ensures
        group_views(s.push(x)) =~= group_views(s).push(x@),
{
    assert forall|k: int| 0 <= k < s.len() + 1 implies group_views(s.push(x))[k] == group_views(
        s,
    ).push(x@)[k] by {
        if k < s.len() {
            assert(s.push(x)[k] == s[k]);
        } else {
            assert(s.push(x)[k] == x);
        }
    }
}

pub proof fn lemma_record_views_push(s: Seq<Record>, x: Record)
    ensures
        record_views(s.push(x)) =~= record_views(s).push(x@),
{
    assert forall|k: int| 0 <= k < s.len() + 1 implies record_views(s.push(x))[k] == record_views(
        s,
    ).push(x@)[k] by {
        if k < s.len() {
            assert(s.push(x)[k] == s[k]);
        } else {
            assert(s.push(x)[k] == x);
        }
    }
}

pub proof fn lemma_group_views_update(s: Seq<Group>, i: int, x: Group)
    requires
        0 <= i < s.len(),
    ensures
        group_views(s.update(i, x)) =~= group_views(s).update(i, x@),
{
    assert forall|k: int| 0 <= k < s.len() implies group_views(s.update(i, x))[k] == group_views(
        s,
    ).update(i, x@)[k] by {
        if k == i {
            assert(s.update(i, x)[k] == x);
        } else {
            assert(s.update(i, x)[k] == s[k]);
        }
    }
}

pub proof fn lemma_group_views_remove(s: Seq<Group>, i: int)
    requires
        0 <= i < s.len(),
    ensures
        group_views(s.remove(i)) =~= group_views(s).remove(i),
{
    assert forall|k: int| 0 <= k < s.len() - 1 implies group_views(s.remove(i))[k] == group_views(
        s,
    ).remove(i)[k] by {
        if k < i {
            assert(s.remove(i)[k] == s[k]);
        } else {
            assert(s.remove(i)[k] == s[k + 1]);
        }
    }
}

pub proof fn lemma_record_views_remove(s: Seq<Record>, i: int)
    requires
        0 <= i < s.len(),
    ensures
        record_views(s.remove(i)) =~= record_views(s).remove(i),
{
    assert forall|k: int| 0 <= k < s.len() - 1 implies record_views(s.remove(i))[k] == record_views(
        s,
    ).remove(i)[k] by {
        if k < i {
            assert(s.remove(i)[k] == s[k]);
        } else {
            assert(s.remove(i)[k] == s[k + 1]);
        }
    }
}

/// Renaming a group in place (same id, any other fields) keeps the vault
/// well formed.
pub proof fn lemma_wf_update_group(v: PasswordDataView, i: int, g: GroupView)
    requires
        v.wf(),
        0 <= i < v.groups.len(),
        g.id == v.groups[i].id,
    ensures
        (PasswordDataView { groups: v.groups.update(i, g), records: v.records }).wf(),
{
    let w = PasswordDataView { groups: v.groups.update(i, g), records: v.records };
    assert(forall|k: int| 0 <= k < w.groups.len() ==> #[trigger] w.groups[k].id == v.groups[k].id);
}

/// Removing one group keeps the vault well formed.
pub proof fn lemma_wf_remove_group(v: PasswordDataView, i: int)
    requires
        v.wf(),
        0 <= i < v.groups.len(),
    ensures
        (PasswordDataView { groups: v.groups.remove(i), records: v.records }).wf(),
{
    let w = PasswordDataView { groups: v.groups.remove(i), records: v.records };
    assert(forall|k: int|
        0 <= k < w.groups.len() ==> #[trigger] w.groups[k] == (if k < i {
            v.groups[k]
        } else {
            v.groups[k + 1]
        }));
}

/// Removing one record keeps the vault well formed.
pub proof fn lemma_wf_remove_record(v: PasswordDataView, i: int)
    requires
        v.wf(),
        0 <= i < v.records.len(),
    ensures
        (PasswordDataView { groups: v.groups, records: v.records.remove(i) }).wf(),
{
    let w = PasswordDataView { groups: v.groups, records: v.records.remove(i) };
    assert(forall|k: int|
        0 <= k < w.records.len() ==> #[trigger] w.records[k] == (if k < i {
            v.records[k]
        } else {
            v.records[k + 1]
        }));
}

/// Appending a group whose id is fresh (larger than every id in use)
/// keeps the vault well formed.
pub proof fn lemma_wf_push_group(v: PasswordDataView, g: GroupView)
    requires
        v.wf(),
        g.id >= 1,
        forall|i: int| 0 <= i < v.groups.len() ==> v.groups[i].id < g.id,
        forall|i: int| 0 <= i < v.records.len() ==> v.records[i].id < g.id,
    ensures
        (PasswordDataView { groups: v.groups.push(g), records: v.records }).wf(),
{
    let w = PasswordDataView { groups: v.groups.push(g), records: v.records };
    assert(forall|k: int|
        0 <= k < w.groups.len() ==> #[trigger] w.groups[k] == (if k < v.groups.len() {
            v.groups[k]
        } else {
            g
        }));
}

/// The records owned by the given group, in storage order.
pub open spec fn records_with_pid(rs: Seq<RecordView>, pid: u32) -> Seq<RecordView> {
    rs.filter(|rv: RecordView| rv.pid == pid)
}

} // verus!
